//! Tables from texts to values that keep the order in which keys came first, as
//! sequences of pairs.

use crate::text::{str_eq, Text};
use vstd::prelude::*;

verus! {

/// The value of a key.
pub open spec fn lookup<V>(m: Seq<(Text, V)>, k: Text) -> Option<V>
    decreases m.len(),
{
    if m.len() == 0 {
        None
    } else if m[0].0 == k {
        Some(m[0].1)
    } else {
        lookup(m.skip(1), k)
    }
}

/// The table with a key set: a key that is there keeps its place, a new one goes
/// to the end.
pub open spec fn put<V>(m: Seq<(Text, V)>, k: Text, v: V) -> Seq<(Text, V)>
    decreases m.len(),
{
    if m.len() == 0 {
        seq![(k, v)]
    } else if m[0].0 == k {
        m.update(0, (k, v))
    } else {
        seq![m[0]] + put(m.skip(1), k, v)
    }
}

/// The table with each pair of `add` set in turn.
pub open spec fn put_all<V>(m: Seq<(Text, V)>, add: Seq<(Text, V)>) -> Seq<(Text, V)>
    decreases add.len(),
{
    if add.len() == 0 {
        m
    } else {
        let rest = put_all(m, add.drop_last());
        put(rest, add.last().0, add.last().1)
    }
}

/// The table that a list of pairs makes: a repeated key keeps its first place and
/// takes its last value.
pub open spec fn collected<V>(pairs: Seq<(Text, V)>) -> Seq<(Text, V)> {
    put_all(Seq::empty(), pairs)
}

/// No key occurs twice.
pub open spec fn distinct<V>(m: Seq<(Text, V)>) -> bool {
    forall|i: int, j: int| 0 <= i < j < m.len() ==> (#[trigger] m[i]).0 != (#[trigger] m[j]).0
}

/// Where a key stands.
pub open spec fn slot<V>(m: Seq<(Text, V)>, k: Text) -> Option<int>
    decreases m.len(),
{
    if m.len() == 0 {
        None
    } else if m[0].0 == k {
        Some(0)
    } else {
        match slot(m.skip(1), k) {
            Some(i) => Some(i + 1),
            None => None,
        }
    }
}

/// Where a key stands, spelled out.
pub proof fn lemma_slot<V>(m: Seq<(Text, V)>, k: Text)
    ensures
        slot(m, k) matches Some(i) ==> 0 <= i < m.len() && m[i].0 == k && (forall|j: int|
            0 <= j < i ==> (#[trigger] m[j]).0 != k) && lookup(m, k) == Some(m[i].1),
        slot(m, k) is None ==> (forall|j: int| 0 <= j < m.len() ==> (#[trigger] m[j]).0 != k)
            && lookup(m, k) is None,
    decreases m.len(),
{
    if m.len() > 0 && m[0].0 != k {
        lemma_slot(m.skip(1), k);
        match slot(m.skip(1), k) {
            Some(i) => {
                assert(m.skip(1)[i] == m[i + 1]);
                assert forall|j: int| 0 <= j < i + 1 implies (#[trigger] m[j]).0 != k by {
                    if j > 0 {
                        assert(m.skip(1)[j - 1] == m[j]);
                    }
                }
            },
            None => {
                assert forall|j: int| 0 <= j < m.len() implies (#[trigger] m[j]).0 != k by {
                    if j > 0 {
                        assert(m.skip(1)[j - 1] == m[j]);
                    }
                }
            },
        }
    }
}

/// Setting a key, by the place where it stands.
pub proof fn lemma_put<V>(m: Seq<(Text, V)>, k: Text, v: V)
    ensures
        slot(m, k) matches Some(i) ==> put(m, k, v) == m.update(i, (k, v)),
        slot(m, k) is None ==> put(m, k, v) == m.push((k, v)),
    decreases m.len(),
{
    if m.len() == 0 {
        assert(put(m, k, v) =~= m.push((k, v)));
    } else if m[0].0 != k {
        lemma_put(m.skip(1), k, v);
        lemma_slot(m.skip(1), k);
        match slot(m.skip(1), k) {
            Some(i) => {
                assert(put(m, k, v) =~= m.update(i + 1, (k, v)));
            },
            None => {
                assert(put(m, k, v) =~= m.push((k, v)));
            },
        }
    }
}

/// The first place with a key is where the key stands.
pub proof fn lemma_slot_at<V>(m: Seq<(Text, V)>, k: Text, i: int)
    requires
        0 <= i < m.len(),
        m[i].0 == k,
        forall|j: int| 0 <= j < i ==> (#[trigger] m[j]).0 != k,
    ensures
        slot(m, k) == Some(i),
{
    lemma_slot(m, k);
}

/// A key that stands nowhere has no place.
pub proof fn lemma_no_slot<V>(m: Seq<(Text, V)>, k: Text)
    requires
        forall|j: int| 0 <= j < m.len() ==> (#[trigger] m[j]).0 != k,
    ensures
        slot(m, k) is None,
{
    lemma_slot(m, k);
}

/// Named things by their views.
pub open spec fn view_entries<T: View>(v: Seq<(String, T)>) -> Seq<(Text, T::V)> {
    v.map_values(|e: (String, T)| (e.0@, e.1@))
}

/// Where a key stands.
pub fn find_entry<T: View>(v: &Vec<(String, T)>, k: &str) -> (r: Option<usize>)
    ensures
        match r {
            Some(i) => i < v@.len() && slot(view_entries(v@), k@) == Some(i as int) && lookup(
                view_entries(v@),
                k@,
            ) == Some(v@[i as int].1@) && v@[i as int].0@ == k@,
            None => slot(view_entries(v@), k@) is None && lookup(view_entries(v@), k@) is None,
        },
{
    let ghost all = view_entries(v@);
    let mut i: usize = 0;
    while i < v.len()
        invariant
            i <= v@.len(),
            all == view_entries(v@),
            forall|j: int| 0 <= j < i ==> (#[trigger] all[j]).0 != k@,
        decreases v@.len() - i,
    {
        assert(all[i as int] == (v@[i as int].0@, v@[i as int].1@));
        if str_eq(v[i].0.as_str(), k) {
            proof {
                lemma_slot_at(all, k@, i as int);
                lemma_slot(all, k@);
            }
            return Some(i);
        }
        i += 1;
    }
    proof {
        lemma_no_slot(all, k@);
        lemma_slot(all, k@);
    }
    None
}

/// Setting a key makes it read back, leaves every other key as it was, and keeps
/// keys distinct.
pub proof fn law_put_then_lookup<V>(m: Seq<(Text, V)>, k: Text, v: V, other: Text)
    ensures
        lookup(put(m, k, v), k) == Some(v),
        other != k ==> lookup(put(m, k, v), other) == lookup(m, other),
        distinct(m) ==> distinct(put(m, k, v)),
{
    lemma_put(m, k, v);
    lemma_slot(m, k);
    lemma_slot(put(m, k, v), k);
    lemma_lookup_put(m, k, v, other);
    let n = put(m, k, v);
    match slot(m, k) {
        Some(i) => {
            lemma_slot_at(n, k, i);
            if distinct(m) {
                assert forall|a: int, b: int| 0 <= a < b < n.len() implies (#[trigger] n[a]).0 != (
                #[trigger] n[b]).0 by {
                    assert(m[a].0 != m[b].0);
                }
            }
        },
        None => {
            lemma_slot_at(n, k, m.len() as int);
        },
    }
}

/// Setting a key leaves every other key as it was.
proof fn lemma_lookup_put<V>(m: Seq<(Text, V)>, k: Text, v: V, other: Text)
    ensures
        other != k ==> lookup(put(m, k, v), other) == lookup(m, other),
    decreases m.len(),
{
    if m.len() > 0 {
        if m[0].0 == k {
            assert(m.update(0, (k, v)).skip(1) =~= m.skip(1));
        } else {
            lemma_lookup_put(m.skip(1), k, v, other);
            assert((seq![m[0]] + put(m.skip(1), k, v)).skip(1) =~= put(m.skip(1), k, v));
        }
    } else {
        assert(seq![(k, v)].skip(1) =~= m);
    }
}

/// A table made from pairs has distinct keys.
pub proof fn law_collected_is_distinct<V>(m: Seq<(Text, V)>, add: Seq<(Text, V)>)
    requires
        distinct(m),
    ensures
        distinct(put_all(m, add)),
    decreases add.len(),
{
    if add.len() > 0 {
        law_collected_is_distinct(m, add.drop_last());
        law_put_then_lookup(
            put_all(m, add.drop_last()),
            add.last().0,
            add.last().1,
            add.last().0,
        );
    }
}

/// Pairs with distinct keys make a table of just those pairs.
pub proof fn law_distinct_pairs_are_kept<V>(pairs: Seq<(Text, V)>)
    requires
        distinct(pairs),
    ensures
        collected(pairs) == pairs,
    decreases pairs.len(),
{
    if pairs.len() > 0 {
        let d = pairs.drop_last();
        assert forall|a: int, b: int| 0 <= a < b < d.len() implies (#[trigger] d[a]).0 != (
        #[trigger] d[b]).0 by {
            assert(pairs[a].0 != pairs[b].0);
        }
        law_distinct_pairs_are_kept(d);
        assert forall|j: int| 0 <= j < d.len() implies (#[trigger] d[j]).0 != pairs.last().0 by {
            assert(pairs[j].0 != pairs[pairs.len() - 1].0);
        }
        lemma_no_slot(d, pairs.last().0);
        lemma_put(d, pairs.last().0, pairs.last().1);
        assert(d.push(pairs.last()) =~= pairs);
    } else {
        assert(pairs =~= Seq::empty());
    }
}

/// A table finds the first pair with the key, and nothing where there is none.
pub proof fn law_lookup_finds_the_first<V>(m: Seq<(Text, V)>, k: Text, i: int)
    requires
        0 <= i < m.len(),
        m[i].0 == k,
        forall|j: int| 0 <= j < i ==> (#[trigger] m[j]).0 != k,
    ensures
        lookup(m, k) == Some(m[i].1),
    decreases i,
{
    if i > 0 {
        assert(m[0].0 != k);
        let t = m.skip(1);
        assert forall|j: int| 0 <= j < i - 1 implies (#[trigger] t[j]).0 != k by {
            assert(m[j + 1].0 != k);
        }
        law_lookup_finds_the_first(t, k, i - 1);
    }
}

/// What no pair has as its key is not found, and what is found some pair has.
pub proof fn law_lookup_finds_only_pairs<V>(m: Seq<(Text, V)>, k: Text)
    ensures
        (forall|j: int| 0 <= j < m.len() ==> (#[trigger] m[j]).0 != k) <==> lookup(m, k) is None,
        lookup(m, k) is Some ==> exists|j: int|
            0 <= j < m.len() && #[trigger] m[j] == (k, lookup(m, k)->Some_0),
    decreases m.len(),
{
    if m.len() > 0 {
        let t = m.skip(1);
        law_lookup_finds_only_pairs(t, k);
        if m[0].0 == k {
            assert(m[0] == (k, lookup(m, k)->Some_0));
        } else {
            if lookup(t, k) is None {
                assert forall|j: int| 0 <= j < m.len() implies (#[trigger] m[j]).0 != k by {
                    if j > 0 {
                        assert(t[j - 1].0 != k);
                    }
                }
            } else {
                let j = choose|j: int|
                    0 <= j < t.len() && #[trigger] t[j] == (k, lookup(t, k)->Some_0);
                assert(m[j + 1] == (k, lookup(m, k)->Some_0));
            }
        }
    }
}

/// Of pairs with the same key the last one counts.
pub proof fn law_last_pair_counts<V>(m: Seq<(Text, V)>, add: Seq<(Text, V)>, k: Text)
    ensures
        forall|i: int|
            0 <= i < add.len() && (#[trigger] add[i]).0 == k && (forall|j: int|
                i < j < add.len() ==> (#[trigger] add[j]).0 != k) ==> lookup(put_all(m, add), k)
                == Some(add[i].1),
        (forall|j: int| 0 <= j < add.len() ==> (#[trigger] add[j]).0 != k) ==> lookup(
            put_all(m, add),
            k,
        ) == lookup(m, k),
    decreases add.len(),
{
    if add.len() > 0 {
        let d = add.drop_last();
        let e = add.last();
        law_last_pair_counts(m, d, k);
        law_put_then_lookup(put_all(m, d), e.0, e.1, k);
        assert forall|i: int|
            0 <= i < add.len() && (#[trigger] add[i]).0 == k && (forall|j: int|
                i < j < add.len() ==> (#[trigger] add[j]).0 != k) implies lookup(
            put_all(m, add),
            k,
        ) == Some(add[i].1) by {
            if i < d.len() {
                assert(add[add.len() - 1].0 != k);
                assert(d[i].0 == k);
                assert forall|j: int| i < j < d.len() implies (#[trigger] d[j]).0 != k by {
                    assert(add[j].0 != k);
                }
                assert(lookup(put_all(m, d), k) == Some(d[i].1));
            }
        }
        if forall|j: int| 0 <= j < add.len() ==> (#[trigger] add[j]).0 != k {
            assert(add[add.len() - 1].0 != k);
            assert forall|j: int| 0 <= j < d.len() implies (#[trigger] d[j]).0 != k by {
                assert(add[j].0 != k);
            }
        }
    }
}

/// Setting a key changes the pair that has it, or adds one at the end; every other
/// pair stays in its place.
pub proof fn law_put_keeps_the_others<V>(m: Seq<(Text, V)>, k: Text, v: V)
    ensures
        lookup(m, k) is None ==> put(m, k, v) == m.push((k, v)),
        lookup(m, k) is Some ==> put(m, k, v).len() == m.len(),
        forall|i: int|
            0 <= i < m.len() && (#[trigger] m[i]).0 != k ==> put(m, k, v)[i] == m[i],
        forall|i: int| 0 <= i < m.len() ==> (#[trigger] put(m, k, v)[i]).0 == m[i].0,
    decreases m.len(),
{
    if m.len() > 0 {
        let t = m.skip(1);
        if m[0].0 != k {
            law_put_keeps_the_others(t, k, v);
            let p = put(m, k, v);
            let q = put(t, k, v);
            assert(p =~= seq![m[0]] + q);
            if lookup(m, k) is None {
                assert(p =~= m.push((k, v)));
            }
            assert forall|i: int| 0 <= i < m.len() && (#[trigger] m[i]).0 != k implies p[i]
                == m[i] by {
                if i > 0 {
                    assert(t[i - 1].0 != k);
                    assert(p[i] == q[i - 1]);
                }
            }
            assert forall|i: int| 0 <= i < m.len() implies (#[trigger] p[i]).0 == m[i].0 by {
                if i > 0 {
                    assert(p[i] == q[i - 1]);
                    assert(q[i - 1].0 == t[i - 1].0);
                }
            }
        }
    } else {
        assert(put(m, k, v) =~= m.push((k, v)));
    }
}

} // verus!
