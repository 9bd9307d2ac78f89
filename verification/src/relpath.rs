//! Relative file paths as lists of names, ordered name by name.

use crate::order::{before, comes_before, law_before_is_total, law_before_is_transitive};
use crate::text::{str_eq, texts, Text};
use vstd::prelude::*;

verus! {

/// A path as a list of names.
pub type Names = Seq<Text>;

/// `a` comes before `b`: at the first name that differs, or by ending first.
pub open spec fn names_before(a: Names, b: Names) -> bool
    decreases a.len(),
{
    if b.len() == 0 {
        false
    } else if a.len() == 0 {
        true
    } else if a[0] != b[0] {
        before(a[0], b[0])
    } else {
        names_before(a.skip(1), b.skip(1))
    }
}

/// Of two different paths one comes before the other, and not the other way
/// round.
pub proof fn law_names_before_is_total(a: Names, b: Names)
    ensures
        a == b || names_before(a, b) || names_before(b, a),
        !(names_before(a, b) && names_before(b, a)),
        a == b ==> !names_before(a, b),
    decreases a.len(),
{
    if a.len() == 0 || b.len() == 0 {
        if a.len() == b.len() {
            assert(a =~= b);
        }
    } else {
        law_before_is_total(a[0], b[0]);
        if a[0] == b[0] {
            law_names_before_is_total(a.skip(1), b.skip(1));
            if a.skip(1) == b.skip(1) {
                assert(a =~= seq![a[0]] + a.skip(1));
                assert(b =~= seq![b[0]] + b.skip(1));
            }
        }
    }
}

/// The order of paths carries over.
pub proof fn law_names_before_is_transitive(a: Names, b: Names, c: Names)
    requires
        names_before(a, b),
        names_before(b, c),
    ensures
        names_before(a, c),
    decreases a.len(),
{
    if a.len() > 0 {
        if a[0] == b[0] && b[0] == c[0] {
            law_names_before_is_transitive(a.skip(1), b.skip(1), c.skip(1));
        } else if a[0] != b[0] && b[0] != c[0] {
            law_before_is_transitive(a[0], b[0], c[0]);
            law_before_is_total(a[0], c[0]);
            crate::order::law_before_is_irreflexive(a[0]);
        }
    }
}

/// `d` is a directory above `p`.
pub open spec fn is_above(d: Names, p: Names) -> bool {
    d.len() < p.len() && p.take(d.len() as int) == d
}

/// A directory comes before what is in it.
pub proof fn lemma_above_before(d: Names, p: Names)
    requires
        is_above(d, p),
    ensures
        names_before(d, p),
    decreases d.len(),
{
    if d.len() > 0 {
        assert(p.take(d.len() as int)[0] == p[0]);
        assert(p.skip(1).take(d.len() - 1) =~= p.take(d.len() as int).skip(1));
        lemma_above_before(d.skip(1), p.skip(1));
    }
}

/// What stands between a directory and something in it is in it too.
pub proof fn lemma_between(d: Names, x: Names, p: Names)
    requires
        is_above(d, p),
        names_before(d, x),
        x == p || names_before(x, p),
    ensures
        is_above(d, x),
    decreases d.len(),
{
    if d.len() == 0 {
        assert(x.take(0) =~= d);
    } else {
        assert(p.take(d.len() as int)[0] == p[0]);
        assert(d[0] == p[0]);
        if x != p {
            if x[0] != d[0] {
                law_before_is_total(d[0], x[0]);
            }
        }
        assert(x.len() > 0);
        assert(x[0] == d[0]);
        assert(p.skip(1).take(d.len() - 1) =~= p.take(d.len() as int).skip(1));
        lemma_between(d.skip(1), x.skip(1), p.skip(1));
        assert(x.skip(1).take(d.len() - 1) == d.skip(1));
        assert(x.take(d.len() as int) =~= d) by {
            assert forall|i: int| 0 <= i < d.len() implies x[i] == d[i] by {
                if i > 0 {
                    assert(x.skip(1).take(d.len() - 1)[i - 1] == d.skip(1)[i - 1]);
                }
            }
        }
    }
}

/// Whether a path comes before another.
pub fn path_before(a: &Vec<String>, b: &Vec<String>) -> (r: bool)
    ensures
        r == names_before(texts(a@), texts(b@)),
{
    let ghost x = texts(a@);
    let ghost y = texts(b@);
    let mut i: usize = 0;
    assert(x.skip(0) =~= x);
    assert(y.skip(0) =~= y);
    while i < a.len() && i < b.len()
        invariant
            i <= a@.len(),
            i <= b@.len(),
            x == texts(a@),
            y == texts(b@),
            names_before(x, y) == names_before(x.skip(i as int), y.skip(i as int)),
        decreases a@.len() - i,
    {
        assert(x.skip(i as int)[0] == a@[i as int]@);
        assert(y.skip(i as int)[0] == b@[i as int]@);
        assert(x.skip(i as int).skip(1) =~= x.skip(i + 1));
        assert(y.skip(i as int).skip(1) =~= y.skip(i + 1));
        if !str_eq(a[i].as_str(), b[i].as_str()) {
            return comes_before(a[i].as_str(), b[i].as_str());
        }
        i += 1;
    }
    i < b.len()
}

/// Whether two paths are the same.
pub fn path_eq(a: &Vec<String>, b: &Vec<String>) -> (r: bool)
    ensures
        r == (texts(a@) == texts(b@)),
{
    let ghost x = texts(a@);
    let ghost y = texts(b@);
    if a.len() != b.len() {
        assert(x.len() != y.len());
        return false;
    }
    let mut i: usize = 0;
    while i < a.len()
        invariant
            i <= a@.len(),
            a@.len() == b@.len(),
            x == texts(a@),
            y == texts(b@),
            forall|k: int| 0 <= k < i ==> x[k] == y[k],
        decreases a@.len() - i,
    {
        assert(x[i as int] == a@[i as int]@);
        assert(y[i as int] == b@[i as int]@);
        if !str_eq(a[i].as_str(), b[i].as_str()) {
            return false;
        }
        i += 1;
    }
    assert(x =~= y);
    true
}

/// The first `n` names of a path.
pub fn path_take(p: &Vec<String>, n: usize) -> (r: Vec<String>)
    requires
        n <= p@.len(),
    ensures
        texts(r@) == texts(p@).take(n as int),
{
    let mut out: Vec<String> = Vec::new();
    let mut i: usize = 0;
    assert(texts(out@) =~= texts(p@).take(0));
    while i < n
        invariant
            i <= n <= p@.len(),
            texts(out@) == texts(p@).take(i as int),
        decreases n - i,
    {
        let ghost done = texts(out@);
        let s = p[i].clone();
        out.push(s);
        assert(texts(out@) =~= done.push(s@));
        assert(texts(out@) =~= texts(p@).take(i + 1));
        i += 1;
    }
    out
}

/// The path that comes first is the shorter one where the other goes on from it,
/// and otherwise the one whose name comes first at the first difference.
pub proof fn law_names_before_goes_by_the_first_difference(a: Names, b: Names, k: int)
    requires
        0 <= k <= a.len(),
        k <= b.len(),
        forall|i: int| 0 <= i < k ==> #[trigger] a[i] == b[i],
    ensures
        k == a.len() && k < b.len() ==> names_before(a, b) && !names_before(b, a),
        k < a.len() && k < b.len() && a[k] != b[k] ==> (names_before(a, b) <==> before(a[k], b[k])),
    decreases k,
{
    if k > 0 {
        assert(a[0] == b[0]);
        let x = a.skip(1);
        let y = b.skip(1);
        assert forall|i: int| 0 <= i < k - 1 implies #[trigger] x[i] == y[i] by {
            assert(a[i + 1] == b[i + 1]);
        }
        law_names_before_goes_by_the_first_difference(x, y, k - 1);
    }
}

} // verus!
