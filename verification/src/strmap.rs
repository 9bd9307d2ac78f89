//! Maps from strings to strings that keep the order of their keys:
//! `indexmap::IndexMap`.

use crate::table::{distinct, lookup, put, put_all};
use crate::text::{pairs, Text};
use indexmap::IndexMap;
use vstd::prelude::*;

verus! {

/// A map that keeps the order of its keys, opaque here; [`map_entries`] names
/// what it holds.
#[verifier::external_type_specification]
#[verifier::external_body]
#[verifier::reject_recursive_types(K)]
#[verifier::reject_recursive_types(V)]
#[verifier::reject_recursive_types(S)]
pub struct ExIndexMap<K, V, S>(IndexMap<K, V, S>);

/// A map from strings to strings.
pub type StrMap = IndexMap<String, String>;

/// The entries of a map, in order.
pub uninterp spec fn map_entries(m: IndexMap<String, String>) -> Seq<(Text, Text)>;

/// The keys of entries.
pub open spec fn keys_of<V>(e: Seq<(Text, V)>) -> Seq<Text> {
    e.map_values(|p: (Text, V)| p.0)
}

/// As many keys as entries: no two entries have the same.
pub proof fn lemma_distinct<V>(e: Seq<(Text, V)>)
    requires
        keys_of(e).to_set().len() == e.len(),
    ensures
        distinct(e),
{
    let k = keys_of(e);
    k.lemma_no_dup_set_cardinality();
    assert forall|i: int, j: int| 0 <= i < j < e.len() implies (#[trigger] e[i]).0 != (
    #[trigger] e[j]).0 by {
        assert(k[i] != k[j]);
    }
}

/// `IndexMap::new`: no entries.
#[verifier::external_body]
pub(crate) fn map_new() -> (r: StrMap)
    ensures
        map_entries(r) == Seq::<(Text, Text)>::empty(),
{
    IndexMap::new()
}

/// `IndexMap::len`: the number of entries, which is the number of different keys.
#[verifier::external_body]
pub(crate) fn map_len(m: &StrMap) -> (r: usize)
    ensures
        r == map_entries(*m).len(),
        r == keys_of(map_entries(*m)).to_set().len(),
{
    m.len()
}

/// `IndexMap::get_index`: the entry at a position.
#[verifier::external_body]
pub(crate) fn map_entry(m: &StrMap, i: usize) -> (r: (String, String))
    requires
        i < map_entries(*m).len(),
    ensures
        (r.0@, r.1@) == map_entries(*m)[i as int],
{
    m.get_index(i).map(|e| (e.0.clone(), e.1.clone())).unwrap_or_default()
}

/// `IndexMap::get`: the value of a key.
#[verifier::external_body]
pub(crate) fn map_get(m: &StrMap, k: &str) -> (r: Option<String>)
    ensures
        crate::text::opt_text(r) == lookup(map_entries(*m), k@),
{
    m.get(k).cloned()
}

/// `IndexMap::insert`: a key that is there keeps its place and takes the new
/// value, a new one goes to the end.
#[verifier::external_body]
pub(crate) fn map_put(m: &mut StrMap, k: String, v: String)
    ensures
        map_entries(*final(m)) == put(map_entries(*old(m)), k@, v@),
{
    m.insert(k, v);
}

/// `IndexMap::clone`: the same entries in the same order.
#[verifier::external_body]
pub(crate) fn map_copy(m: &StrMap) -> (r: StrMap)
    ensures
        map_entries(r) == map_entries(*m),
{
    m.clone()
}

/// The number of entries; no two of them have the same key.
pub fn map_size(m: &StrMap) -> (r: usize)
    ensures
        r == map_entries(*m).len(),
        distinct(map_entries(*m)),
{
    let n = map_len(m);
    proof {
        lemma_distinct(map_entries(*m));
    }
    n
}

/// Set each entry of `add` in turn.
pub fn put_entries(m: &mut StrMap, add: &StrMap)
    ensures
        map_entries(*final(m)) == put_all(map_entries(*old(m)), map_entries(*add)),
{
    let ghost all = map_entries(*add);
    let n = map_len(add);
    let mut i: usize = 0;
    assert(all.take(0) =~= Seq::empty());
    while i < n
        invariant
            i <= n,
            n == all.len(),
            all == map_entries(*add),
            map_entries(*m) == put_all(map_entries(*old(m)), all.take(i as int)),
        decreases n - i,
    {
        let (k, v) = map_entry(add, i);
        assert(all.take(i + 1).drop_last() =~= all.take(i as int));
        assert(all.take(i + 1).last() == (k@, v@));
        map_put(m, k, v);
        i += 1;
    }
    assert(all.take(n as int) =~= all);
}

/// Set each pair of a list in turn.
pub fn put_pairs(m: &mut StrMap, add: &Vec<(String, String)>)
    ensures
        map_entries(*final(m)) == put_all(map_entries(*old(m)), pairs(add@)),
{
    let ghost all = pairs(add@);
    let mut i: usize = 0;
    assert(all.take(0) =~= Seq::empty());
    while i < add.len()
        invariant
            i <= add@.len(),
            all == pairs(add@),
            map_entries(*m) == put_all(map_entries(*old(m)), all.take(i as int)),
        decreases add@.len() - i,
    {
        assert(all.take(i + 1).drop_last() =~= all.take(i as int));
        assert(all.take(i + 1).last() == (add@[i as int].0@, add@[i as int].1@));
        map_put(m, add[i].0.clone(), add[i].1.clone());
        i += 1;
    }
    assert(all.take(add@.len() as int) =~= all);
}

/// The entries as a list.
pub fn to_pairs(m: &StrMap) -> (r: Vec<(String, String)>)
    ensures
        pairs(r@) == map_entries(*m),
{
    let n = map_len(m);
    let mut out: Vec<(String, String)> = Vec::new();
    let mut i: usize = 0;
    assert(pairs(out@) =~= map_entries(*m).take(0));
    while i < n
        invariant
            i <= n,
            n == map_entries(*m).len(),
            pairs(out@) == map_entries(*m).take(i as int),
        decreases n - i,
    {
        let ghost done = pairs(out@);
        let e = map_entry(m, i);
        let ghost kv = (e.0@, e.1@);
        out.push(e);
        assert(pairs(out@) =~= done.push(kv));
        assert(pairs(out@) =~= map_entries(*m).take(i + 1));
        i += 1;
    }
    assert(map_entries(*m).take(n as int) =~= map_entries(*m));
    out
}

} // verus!
