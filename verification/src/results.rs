//! Lists of results, of which the first error wins.

use crate::text::Text;
use vstd::prelude::*;

verus! {

/// A result put in front of a list of results; the first error wins.
pub open spec fn ahead<A, E>(head: Result<A, E>, tail: Result<Seq<A>, E>) -> Result<Seq<A>, E> {
    match head {
        Err(e) => Err(e),
        Ok(h) => match tail {
            Err(e) => Err(e),
            Ok(t) => Ok(seq![h] + t),
        },
    }
}

/// Values that are done, put in front of a list of results.
pub open spec fn after_done<A, E>(done: Seq<A>, tail: Result<Seq<A>, E>) -> Result<Seq<A>, E> {
    match tail {
        Err(e) => Err(e),
        Ok(t) => Ok(done + t),
    }
}

/// A result with a name.
pub open spec fn named<A, E>(k: Text, r: Result<A, E>) -> Result<(Text, A), E> {
    match r {
        Err(e) => Err(e),
        Ok(a) => Ok((k, a)),
    }
}

} // verus!
