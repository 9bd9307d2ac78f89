//! Named values that keep the order of their names: `indexmap::IndexMap`.

use crate::strmap::{keys_of, lemma_distinct, map_entries, map_entry, map_size, StrMap};
use crate::table::{
    collected, distinct, law_distinct_pairs_are_kept, lookup, put, view_entries,
};
use crate::text::Text;
use crate::value::{Value, ValueView};
use indexmap::IndexMap;
use vstd::prelude::*;

verus! {

/// Values by name, in the order in which the names came. The map is opaque here;
/// [`member_list`] names what it holds.
#[verifier::external_body]
#[derive(Debug)]
pub struct Members {
    map: IndexMap<String, Value>,
}

/// The names of a map and their values, in order.
pub uninterp spec fn member_list(m: Members) -> Seq<(Text, ValueView)>;

impl View for Members {
    type V = Seq<(Text, ValueView)>;

    open spec fn view(&self) -> Seq<(Text, ValueView)> {
        member_list(*self)
    }
}

/// `IndexMap::new`: no entries.
#[verifier::external_body]
fn members_new() -> (r: Members)
    ensures
        member_list(r) == Seq::<(Text, ValueView)>::empty(),
{
    Members { map: IndexMap::new() }
}

/// `IndexMap::len`: the number of entries, which is the number of different names.
#[verifier::external_body]
fn members_len(m: &Members) -> (r: usize)
    ensures
        r == member_list(*m).len(),
        r == keys_of(member_list(*m)).to_set().len(),
{
    m.map.len()
}

/// `IndexMap::get_index`: the entry at a position, if there is one.
#[verifier::external_body]
fn members_entry(m: &Members, i: usize) -> (r: Option<(&String, &Value)>)
    ensures
        match r {
            Some(e) => i < member_list(*m).len() && (e.0@, e.1@) == member_list(*m)[i as int],
            None => i >= member_list(*m).len(),
        },
{
    m.map.get_index(i)
}

/// `IndexMap::get`: the value of a name.
#[verifier::external_body]
fn members_get<'a>(m: &'a Members, k: &str) -> (r: Option<&'a Value>)
    ensures
        match r {
            Some(v) => lookup(member_list(*m), k@) == Some(v@),
            None => lookup(member_list(*m), k@) is None,
        },
{
    m.map.get(k)
}

/// `IndexMap::insert`: a name that is there keeps its place and takes the new
/// value, a new one goes to the end.
#[verifier::external_body]
fn members_put(m: &mut Members, k: String, v: Value)
    ensures
        member_list(*final(m)) == put(member_list(*old(m)), k@, v@),
{
    m.map.insert(k, v);
}

impl Members {
    /// No values.
    pub fn new() -> (r: Members)
        ensures
            r@ == Seq::<(Text, ValueView)>::empty(),
    {
        members_new()
    }

    /// How many values there are; no two have the same name.
    pub fn len(&self) -> (r: usize)
        ensures
            r == self@.len(),
            distinct(self@),
    {
        let n = members_len(self);
        proof {
            lemma_distinct(self@);
        }
        n
    }

    /// The name and the value at a position.
    pub fn at(&self, i: usize) -> (r: Option<(&String, &Value)>)
        ensures
            match r {
                Some(e) => i < self@.len() && (e.0@, e.1@) == self@[i as int],
                None => i >= self@.len(),
            },
    {
        members_entry(self, i)
    }

    /// The value of a name.
    pub fn get(&self, k: &str) -> (r: Option<&Value>)
        ensures
            match r {
                Some(v) => lookup(self@, k@) == Some(v@),
                None => lookup(self@, k@) is None,
            },
    {
        members_get(self, k)
    }

    /// Set a name: where it is there it keeps its place, else it goes to the end.
    pub fn insert(&mut self, k: String, v: Value)
        ensures
            final(self)@ == put(old(self)@, k@, v@),
    {
        members_put(self, k, v)
    }

    /// A copy.
    pub fn copy(&self) -> (r: Members)
        ensures
            r@ == self@,
        decreases self@,
    {
        let ghost all = self@;
        let n = self.len();
        let mut out = Members::new();
        let mut i: usize = 0;
        proof {
            assert(all.take(0) =~= Seq::empty());
            law_distinct_pairs_are_kept(all);
        }
        while i < n
            invariant
                i <= n,
                n == all.len(),
                all == self@,
                out@ == collected(all.take(i as int)),
            decreases n - i,
        {
            match self.at(i) {
                Some((k, v)) => {
                    assert(all.take(i + 1).drop_last() =~= all.take(i as int));
                    assert(all.take(i + 1).last() == (k@, v@));
                    assert(decreases_to!(all => all[i as int]));
                    assert(decreases_to!(all[i as int] => all[i as int].1));
                    out.insert(k.clone(), v.copy());
                },
                None => {},
            }
            i += 1;
        }
        assert(all.take(n as int) =~= all);
        out
    }
}

impl Clone for Members {
    fn clone(&self) -> (r: Members)
        ensures
            r@ == self@,
    {
        self.copy()
    }
}

impl Default for Members {
    /// No values.
    fn default() -> (r: Members)
        ensures
            r@ == Seq::<(Text, ValueView)>::empty(),
    {
        Members::new()
    }
}

/// Values by name from a list: the last value of a name counts, in the place of
/// the first.
pub fn members_of(list: Vec<(String, Value)>) -> (r: Members)
    ensures
        r@ == collected(view_entries(list@)),
{
    let ghost all = view_entries(list@);
    let ghost given = list@;
    let mut todo = list;
    let total = todo.len();
    let mut out = Members::new();
    let mut i: usize = 0;
    assert(all.take(0) =~= Seq::empty());
    while i < total
        invariant
            i <= total,
            total == given.len(),
            all == view_entries(given),
            todo@ == given.skip(i as int),
            out@ == collected(all.take(i as int)),
        decreases total - i,
    {
        let (k, v) = todo.remove(0);
        assert(todo@ =~= given.skip(i + 1));
        assert(all.take(i + 1).drop_last() =~= all.take(i as int));
        assert(all.take(i + 1).last() == (k@, v@));
        out.insert(k, v);
        i += 1;
    }
    assert(all.take(total as int) =~= all);
    out
}

/// Values by name from a list without a name twice.
pub(crate) fn sealed(list: Vec<(String, Value)>) -> (r: Members)
    requires
        distinct(view_entries(list@)),
    ensures
        r@ == view_entries(list@),
{
    proof {
        law_distinct_pairs_are_kept(view_entries(list@));
    }
    members_of(list)
}

/// Named strings as named values.
pub open spec fn str_entries(m: Seq<(Text, Text)>) -> Seq<(Text, ValueView)> {
    m.map_values(|e: (Text, Text)| (e.0, ValueView::Str(e.1)))
}

/// Named strings as named values.
pub fn to_members(map: &StrMap) -> (r: Members)
    ensures
        r@ == str_entries(map_entries(*map)),
{
    let ghost all = map_entries(*map);
    let ghost want = str_entries(all);
    let n = map_size(map);
    let mut out = Members::new();
    let mut i: usize = 0;
    proof {
        assert(want.take(0) =~= Seq::empty());
        assert forall|a: int, b: int| 0 <= a < b < want.len() implies (#[trigger] want[a]).0 != (
        #[trigger] want[b]).0 by {
            assert(all[a].0 != all[b].0);
        }
        law_distinct_pairs_are_kept(want);
    }
    while i < n
        invariant
            i <= n,
            n == all.len(),
            all == map_entries(*map),
            want == str_entries(all),
            out@ == collected(want.take(i as int)),
        decreases n - i,
    {
        let (k, v) = map_entry(map, i);
        assert(want.take(i + 1).drop_last() =~= want.take(i as int));
        assert(want.take(i + 1).last() == (k@, ValueView::Str(v@)));
        out.insert(k, Value::Str(v));
        i += 1;
    }
    assert(want.take(n as int) =~= want);
    out
}

} // verus!
