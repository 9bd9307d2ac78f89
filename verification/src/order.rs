//! The order of texts: character by character, by code point.

use crate::text::{chars_of, str_eq, texts, Text};
use vstd::prelude::*;

verus! {

/// `a` comes before `b`.
pub open spec fn before(a: Text, b: Text) -> bool
    decreases a.len(),
{
    if b.len() == 0 {
        false
    } else if a.len() == 0 {
        true
    } else if a[0] != b[0] {
        a[0] < b[0]
    } else {
        before(a.skip(1), b.skip(1))
    }
}

/// Nothing comes before itself.
pub proof fn law_before_is_irreflexive(a: Text)
    ensures
        !before(a, a),
    decreases a.len(),
{
    if a.len() > 0 {
        law_before_is_irreflexive(a.skip(1));
    }
}

/// Of two different texts one comes before the other, and not the other way
/// round.
pub proof fn law_before_is_total(a: Text, b: Text)
    ensures
        a == b || before(a, b) || before(b, a),
        !(before(a, b) && before(b, a)),
    decreases a.len(),
{
    if a.len() == 0 || b.len() == 0 {
        if a.len() == b.len() {
            assert(a =~= b);
        }
    } else if a[0] == b[0] {
        law_before_is_total(a.skip(1), b.skip(1));
        if a.skip(1) == b.skip(1) {
            assert(a =~= seq![a[0]] + a.skip(1));
            assert(b =~= seq![b[0]] + b.skip(1));
        }
    }
}

/// The order carries over.
pub proof fn law_before_is_transitive(a: Text, b: Text, c: Text)
    requires
        before(a, b),
        before(b, c),
    ensures
        before(a, c),
    decreases a.len(),
{
    if a.len() > 0 && a[0] == b[0] && b[0] == c[0] {
        law_before_is_transitive(a.skip(1), b.skip(1), c.skip(1));
    }
}

/// Whether `a` comes before `b`.
pub fn comes_before(a: &str, b: &str) -> (r: bool)
    ensures
        r == before(a@, b@),
{
    let x = chars_of(a);
    let y = chars_of(b);
    let mut i: usize = 0;
    assert(a@.skip(0) =~= a@);
    assert(b@.skip(0) =~= b@);
    while i < x.len() && i < y.len()
        invariant
            i <= x@.len(),
            i <= y@.len(),
            x@ == a@,
            y@ == b@,
            before(a@, b@) == before(a@.skip(i as int), b@.skip(i as int)),
        decreases x@.len() - i,
    {
        if x[i] != y[i] {
            return x[i] < y[i];
        }
        assert(a@.skip(i as int).skip(1) =~= a@.skip(i + 1));
        assert(b@.skip(i as int).skip(1) =~= b@.skip(i + 1));
        i += 1;
    }
    i < y.len()
}

// ---------------------------------------------------------------------------
// Sorted lists
// ---------------------------------------------------------------------------

/// A text put where it belongs, unless it is there.
pub open spec fn with_text(s: Seq<Text>, x: Text) -> Seq<Text>
    decreases s.len(),
{
    if s.len() == 0 {
        seq![x]
    } else if s.last() == x {
        s
    } else if before(s.last(), x) {
        s.push(x)
    } else {
        with_text(s.drop_last(), x).push(s.last())
    }
}

/// Texts in order, each once.
pub open spec fn sorted_texts(xs: Seq<Text>) -> Seq<Text>
    decreases xs.len(),
{
    if xs.len() == 0 {
        Seq::empty()
    } else {
        with_text(sorted_texts(xs.drop_last()), xs.last())
    }
}

/// In order, and none twice.
pub open spec fn texts_ascend(s: Seq<Text>) -> bool {
    forall|i: int, j: int| 0 <= i < j < s.len() ==> before(#[trigger] s[i], #[trigger] s[j])
}

/// What stands in a list that a text was put in.
proof fn lemma_with_text(s: Seq<Text>, x: Text, y: Text)
    ensures
        with_text(s, x).contains(y) == (s.contains(y) || x == y),
    decreases s.len(),
{
    let w = with_text(s, x);
    if s.len() == 0 {
        assert(w[0] == x);
        if w.contains(y) {
            let i = choose|i: int| 0 <= i < w.len() && w[i] == y;
        }
    } else if s.last() == x {
        assert(s[s.len() - 1] == x);
    } else {
        let d = s.drop_last();
        let v = with_text(d, x);
        lemma_with_text(d, x, y);
        assert(s.contains(y) == (d.contains(y) || s.last() == y)) by {
            if d.contains(y) {
                let i = choose|i: int| 0 <= i < d.len() && d[i] == y;
                assert(s[i] == y);
            }
            if s.last() == y {
                assert(s[s.len() - 1] == y);
            }
            if s.contains(y) {
                let i = choose|i: int| 0 <= i < s.len() && s[i] == y;
                if i < d.len() {
                    assert(d[i] == y);
                }
            }
        }
        if before(s.last(), x) {
            if s.contains(y) {
                let i = choose|i: int| 0 <= i < s.len() && s[i] == y;
                assert(w[i] == y);
            }
            assert(w[s.len() as int] == x);
            if w.contains(y) {
                let i = choose|i: int| 0 <= i < w.len() && w[i] == y;
                if i < s.len() {
                    assert(s[i] == y);
                }
            }
        } else {
            assert(w[v.len() as int] == s.last());
            if v.contains(y) {
                let i = choose|i: int| 0 <= i < v.len() && v[i] == y;
                assert(w[i] == y);
            }
            if w.contains(y) {
                let i = choose|i: int| 0 <= i < w.len() && w[i] == y;
                if i < v.len() {
                    assert(v[i] == y);
                }
            }
        }
    }
}

/// Putting a text in keeps the order.
proof fn lemma_with_text_ascends(s: Seq<Text>, x: Text)
    requires
        texts_ascend(s),
    ensures
        texts_ascend(with_text(s, x)),
    decreases s.len(),
{
    if s.len() > 0 && s.last() != x {
        let w = with_text(s, x);
        let d = s.drop_last();
        law_before_is_total(s.last(), x);
        if before(s.last(), x) {
            assert forall|i: int, j: int| 0 <= i < j < w.len() implies before(
                #[trigger] w[i],
                #[trigger] w[j],
            ) by {
                if j < s.len() {
                    assert(before(s[i], s[j]));
                } else if i < s.len() - 1 {
                    assert(before(s[i], s[s.len() - 1]));
                    law_before_is_transitive(s[i], s.last(), x);
                }
            }
        } else {
            assert forall|i: int, j: int| 0 <= i < j < d.len() implies before(
                #[trigger] d[i],
                #[trigger] d[j],
            ) by {
                assert(before(s[i], s[j]));
            }
            lemma_with_text_ascends(d, x);
            let v = with_text(d, x);
            assert forall|i: int, j: int| 0 <= i < j < w.len() implies before(
                #[trigger] w[i],
                #[trigger] w[j],
            ) by {
                if j < v.len() {
                    assert(before(v[i], v[j]));
                } else {
                    assert(v.contains(v[i]));
                    lemma_with_text(d, x, v[i]);
                    if v[i] != x {
                        let k = choose|k: int| 0 <= k < d.len() && d[k] == v[i];
                        assert(before(s[k], s[s.len() - 1]));
                    }
                }
            }
        }
    }
}

/// Two lists in strict order with the same members are the same list.
pub proof fn lemma_ascending_alike<A>(less: spec_fn(A, A) -> bool, s: Seq<A>, t: Seq<A>)
    requires
        forall|a: A, b: A| !(#[trigger] less(a, b) && less(b, a)),
        forall|i: int, j: int| 0 <= i < j < s.len() ==> less(#[trigger] s[i], #[trigger] s[j]),
        forall|i: int, j: int| 0 <= i < j < t.len() ==> less(#[trigger] t[i], #[trigger] t[j]),
        forall|y: A| s.contains(y) == t.contains(y),
    ensures
        s == t,
    decreases s.len(),
{
    if s.len() == 0 {
        if t.len() > 0 {
            assert(t.contains(t[0]));
            assert(s.contains(t[0]));
        }
        assert(s =~= t);
    } else {
        let x = s[s.len() - 1];
        assert(s.contains(x));
        assert(t.contains(x));
        let y = t[t.len() - 1];
        assert(t.contains(y));
        assert(s.contains(y));
        let i = choose|i: int| 0 <= i < t.len() && t[i] == x;
        let j = choose|j: int| 0 <= j < s.len() && s[j] == y;
        if x != y {
            assert(less(t[i], t[t.len() - 1]));
            assert(less(s[j], s[s.len() - 1]));
        }
        let d = s.drop_last();
        let e = t.drop_last();
        assert forall|z: A| d.contains(z) == e.contains(z) by {
            if d.contains(z) {
                let k = choose|k: int| 0 <= k < d.len() && d[k] == z;
                assert(s[k] == z);
                assert(less(s[k], s[s.len() - 1]));
                assert(t.contains(z));
                let l = choose|l: int| 0 <= l < t.len() && t[l] == z;
                if l == t.len() - 1 {
                    assert(less(x, x));
                }
                assert(e[l] == z);
            }
            if e.contains(z) {
                let k = choose|k: int| 0 <= k < e.len() && e[k] == z;
                assert(t[k] == z);
                assert(less(t[k], t[t.len() - 1]));
                assert(s.contains(z));
                let l = choose|l: int| 0 <= l < s.len() && s[l] == z;
                if l == s.len() - 1 {
                    assert(less(x, x));
                }
                assert(d[l] == z);
            }
        }
        assert forall|a: int, b: int| 0 <= a < b < d.len() implies less(
            #[trigger] d[a],
            #[trigger] d[b],
        ) by {
            assert(less(s[a], s[b]));
        }
        assert forall|a: int, b: int| 0 <= a < b < e.len() implies less(
            #[trigger] e[a],
            #[trigger] e[b],
        ) by {
            assert(less(t[a], t[b]));
        }
        lemma_ascending_alike(less, d, e);
        assert(s =~= d.push(x));
        assert(t =~= e.push(y));
    }
}

/// Sorting puts texts in order, each once, and keeps every one.
pub proof fn law_sorted_texts(xs: Seq<Text>, y: Text)
    ensures
        texts_ascend(sorted_texts(xs)),
        sorted_texts(xs).contains(y) == xs.contains(y),
    decreases xs.len(),
{
    if xs.len() > 0 {
        let d = xs.drop_last();
        law_sorted_texts(d, y);
        lemma_with_text_ascends(sorted_texts(d), xs.last());
        lemma_with_text(sorted_texts(d), xs.last(), y);
        if d.contains(y) {
            let i = choose|i: int| 0 <= i < d.len() && d[i] == y;
            assert(xs[i] == y);
        }
        if xs.last() == y {
            assert(xs[xs.len() - 1] == y);
        }
        if xs.contains(y) {
            let i = choose|i: int| 0 <= i < xs.len() && xs[i] == y;
            if i < d.len() {
                assert(d[i] == y);
            }
        }
    }
}

/// Sorting does not depend on the order in which two lists are joined.
pub proof fn law_sorting_forgets_the_order(a: Seq<Text>, b: Seq<Text>)
    ensures
        sorted_texts(a + b) == sorted_texts(b + a),
{
    let s = sorted_texts(a + b);
    let t = sorted_texts(b + a);
    assert forall|x: Text, y: Text| !(#[trigger] before(x, y) && before(y, x)) by {
        law_before_is_total(x, y);
    }
    assert forall|y: Text| s.contains(y) == t.contains(y) by {
        law_sorted_texts(a + b, y);
        law_sorted_texts(b + a, y);
        lemma_joined_contains(a, b, y);
        lemma_joined_contains(b, a, y);
    }
    law_sorted_texts(a + b, Seq::empty());
    law_sorted_texts(b + a, Seq::empty());
    let less = |x: Text, y: Text| before(x, y);
    assert forall|i: int, j: int| 0 <= i < j < s.len() implies less(
        #[trigger] s[i],
        #[trigger] s[j],
    ) by {
        assert(before(s[i], s[j]));
    }
    assert forall|i: int, j: int| 0 <= i < j < t.len() implies less(
        #[trigger] t[i],
        #[trigger] t[j],
    ) by {
        assert(before(t[i], t[j]));
    }
    lemma_ascending_alike(less, s, t);
}

/// What stands in two lists joined.
proof fn lemma_joined_contains(a: Seq<Text>, b: Seq<Text>, y: Text)
    ensures
        (a + b).contains(y) == (a.contains(y) || b.contains(y)),
{
    let s = a + b;
    if a.contains(y) {
        let i = choose|i: int| 0 <= i < a.len() && a[i] == y;
        assert(s[i] == y);
    }
    if b.contains(y) {
        let i = choose|i: int| 0 <= i < b.len() && b[i] == y;
        assert(s[a.len() + i] == y);
    }
    if s.contains(y) {
        let i = choose|i: int| 0 <= i < s.len() && s[i] == y;
        if i < a.len() {
            assert(a[i] == y);
        } else {
            assert(b[i - a.len()] == y);
        }
    }
}

/// Put a text where it belongs, unless it is there.
pub fn put_text(v: &mut Vec<String>, x: String)
    ensures
        texts(final(v)@) == with_text(texts(old(v)@), x@),
{
    let ghost all = texts(v@);
    let n = v.len();
    let mut i: usize = n;
    assert(all.take(n as int) =~= all);
    assert(with_text(all, x@) + all.skip(n as int) =~= with_text(all, x@));
    while i > 0 && !str_eq(v[i - 1].as_str(), x.as_str()) && !comes_before(
        v[i - 1].as_str(),
        x.as_str(),
    )
        invariant
            i <= n,
            n == v@.len(),
            v@ == old(v)@,
            all == texts(v@),
            with_text(all, x@) == with_text(all.take(i as int), x@) + all.skip(i as int),
        decreases i,
    {
        let ghost t = all.take(i as int);
        assert(t.last() == v@[i - 1]@);
        assert(t.drop_last() =~= all.take(i - 1));
        assert(with_text(t, x@) + all.skip(i as int) =~= with_text(all.take(i - 1), x@)
            + all.skip(i - 1));
        i -= 1;
    }
    let ghost t = all.take(i as int);
    if i > 0 {
        assert(t.last() == v@[i - 1]@);
    }
    if i > 0 && str_eq(v[i - 1].as_str(), x.as_str()) {
        assert(t + all.skip(i as int) =~= all);
    } else {
        v.insert(i, x);
        assert(texts(v@) =~= t.push(x@) + all.skip(i as int));
        if i == 0 {
            assert(t =~= Seq::empty());
            assert(t.push(x@) =~= seq![x@]);
        }
    }
}

/// Sort texts, keeping each once.
pub fn sort_texts(xs: &Vec<String>) -> (r: Vec<String>)
    ensures
        texts(r@) == sorted_texts(texts(xs@)),
{
    let ghost all = texts(xs@);
    let mut out: Vec<String> = Vec::new();
    let mut i: usize = 0;
    assert(all.take(0) =~= Seq::empty());
    assert(texts(out@) =~= Seq::empty());
    while i < xs.len()
        invariant
            i <= xs@.len(),
            all == texts(xs@),
            texts(out@) == sorted_texts(all.take(i as int)),
        decreases xs@.len() - i,
    {
        assert(all.take(i + 1).drop_last() =~= all.take(i as int));
        assert(all.take(i + 1).last() == xs@[i as int]@);
        put_text(&mut out, xs[i].clone());
        i += 1;
    }
    assert(all.take(xs@.len() as int) =~= all);
    out
}

/// The text that comes first is the shorter one where the other goes on from it,
/// and otherwise the one with the lesser character at the first difference.
pub proof fn law_before_goes_by_the_first_difference(a: Text, b: Text, k: int)
    requires
        0 <= k <= a.len(),
        k <= b.len(),
        forall|i: int| 0 <= i < k ==> #[trigger] a[i] == b[i],
    ensures
        k == a.len() && k < b.len() ==> before(a, b) && !before(b, a),
        k < a.len() && k < b.len() && a[k] < b[k] ==> before(a, b) && !before(b, a),
        k == a.len() && k == b.len() ==> !before(a, b) && !before(b, a),
    decreases k,
{
    if k > 0 {
        assert(a[0] == b[0]);
        let x = a.skip(1);
        let y = b.skip(1);
        assert forall|i: int| 0 <= i < k - 1 implies #[trigger] x[i] == y[i] by {
            assert(a[i + 1] == b[i + 1]);
        }
        law_before_goes_by_the_first_difference(x, y, k - 1);
    }
}

} // verus!
