//! What searching, trimming, splitting and joining do to a text.

use crate::scan::{
    chomped, cut, cut_last, holds, index_of, is_blank, joined, last_pos, lemma_index_from,
    lemma_pos_from, lines_of, parts_of, pos_of, replaced, trimmed, trimmed_end, trimmed_start,
    without_cr, word_len, words_of,
};
use crate::text::{has_at, is_space, Text};
use vstd::prelude::*;

verus! {

/// A text is found where it first stands, and only where it stands.
pub proof fn law_texts_are_found_first(s: Text, p: Text)
    ensures
        index_of(s, p) matches Some(i) ==> 0 <= i && i + p.len() <= s.len() && s.subrange(
            i,
            i + p.len(),
        ) == p && forall|j: int|
            0 <= j < i && j + p.len() <= s.len() ==> #[trigger] s.subrange(j, j + p.len()) != p,
        index_of(s, p) is None ==> forall|j: int|
            0 <= j && j + p.len() <= s.len() ==> #[trigger] s.subrange(j, j + p.len()) != p,
        holds(s, p) <==> index_of(s, p) is Some,
        holds(s, p) <==> exists|a: Text, b: Text| s == #[trigger] (a + p + b),
{
    lemma_index_from(s, p, 0);
    if let Some(i) = index_of(s, p) {
        assert forall|j: int| 0 <= j < i && j + p.len() <= s.len() implies #[trigger] s.subrange(
            j,
            j + p.len(),
        ) != p by {
            assert(!has_at(s, p, j));
        }
        assert(s =~= s.take(i) + p + s.skip(i + p.len()));
    } else {
        assert forall|j: int| 0 <= j && j + p.len() <= s.len() implies #[trigger] s.subrange(
            j,
            j + p.len(),
        ) != p by {
            assert(!has_at(s, p, j));
        }
        assert forall|a: Text, b: Text| s != #[trigger] (a + p + b) by {
            let w = a + p + b;
            let n = a.len() as int;
            assert(w.subrange(n, n + p.len()) =~= p);
            assert(s == w ==> has_at(s, p, n));
        }
    }
}

/// A character is found where it first stands; cutting there gives what stands
/// before and behind it.
pub proof fn law_cutting_at_the_first(s: Text, c: char)
    ensures
        pos_of(s, c) matches Some(i) ==> 0 <= i < s.len() && s[i] == c && forall|j: int|
            0 <= j < i ==> #[trigger] s[j] != c,
        pos_of(s, c) is None <==> !s.contains(c),
        cut(s, c) is None <==> !s.contains(c),
        cut(s, c) matches Some(p) ==> s == p.0 + seq![c] + p.1 && !p.0.contains(c),
{
    lemma_pos_from(s, c, 0);
    if let Some(i) = pos_of(s, c) {
        assert(s.contains(c));
        assert(s =~= s.take(i) + seq![c] + s.skip(i + 1));
        if s.take(i).contains(c) {
            let j = choose|j: int| 0 <= j < s.take(i).len() && s.take(i)[j] == c;
            assert(s[j] == c);
        }
    }
}

/// The last character of a kind is found where it last stands, and cutting there
/// leaves none of it behind.
pub proof fn law_cutting_at_the_last(s: Text, c: char)
    ensures
        last_pos(s, c) matches Some(i) ==> 0 <= i < s.len() && s[i] == c && forall|j: int|
            i < j < s.len() ==> #[trigger] s[j] != c,
        last_pos(s, c) is None <==> !s.contains(c),
        cut_last(s, c) is None <==> !s.contains(c),
        cut_last(s, c) matches Some(p) ==> s == p.0 + seq![c] + p.1 && !p.1.contains(c),
{
    lemma_last_pos(s, c);
    if let Some(i) = last_pos(s, c) {
        assert(s.contains(c));
        assert(s =~= s.take(i) + seq![c] + s.skip(i + 1));
        let t = s.skip(i + 1);
        if t.contains(c) {
            let j = choose|j: int| 0 <= j < t.len() && t[j] == c;
            assert(s[i + 1 + j] == c);
        }
    }
}

proof fn lemma_last_pos(s: Text, c: char)
    ensures
        last_pos(s, c) matches Some(i) ==> 0 <= i < s.len() && s[i] == c && forall|j: int|
            i < j < s.len() ==> #[trigger] s[j] != c,
        last_pos(s, c) is None ==> forall|j: int| 0 <= j < s.len() ==> #[trigger] s[j] != c,
    decreases s.len(),
{
    if s.len() > 0 {
        let d = s.drop_last();
        lemma_last_pos(d, c);
        assert forall|j: int| 0 <= j < d.len() implies #[trigger] s[j] == d[j] by {}
    }
}

/// Whether a text is white space alone.
pub open spec fn all_space(s: Text) -> bool {
    forall|i: int| 0 <= i < s.len() ==> is_space(#[trigger] s[i])
}

/// Trimming takes the white space at both ends and nothing else.
pub proof fn law_trimming_takes_the_ends(s: Text)
    ensures
        exists|a: Text, b: Text|
            all_space(a) && all_space(b) && s == #[trigger] (a + trimmed(s) + b),
        trimmed(s).len() > 0 ==> !is_space(trimmed(s)[0]) && !is_space(trimmed(s).last()),
        is_blank(s) <==> all_space(s),
{
    let t = trimmed_start(s);
    let a = lemma_start(s);
    let b = lemma_end(t);
    assert(s =~= a + trimmed(s) + b);
    if trimmed(s).len() > 0 {
        assert(t[0] == trimmed(s)[0]);
    }
    if is_blank(s) {
        assert forall|i: int| 0 <= i < s.len() implies is_space(#[trigger] s[i]) by {
            if i < a.len() {
                assert(s[i] == a[i]);
            } else {
                assert(s[i] == b[i - a.len()]);
            }
        }
    } else if all_space(s) {
        assert(s[a.len() as int] == trimmed(s)[0]);
    }
}

proof fn lemma_start(s: Text) -> (a: Text)
    ensures
        all_space(a),
        s == a + trimmed_start(s),
        trimmed_start(s).len() > 0 ==> !is_space(trimmed_start(s)[0]),
    decreases s.len(),
{
    if s.len() > 0 && is_space(s[0]) {
        let r = lemma_start(s.skip(1));
        let a = seq![s[0]] + r;
        assert(s =~= seq![s[0]] + (r + trimmed_start(s.skip(1))));
        assert(s =~= a + trimmed_start(s));
        a
    } else {
        assert(s =~= Seq::<char>::empty() + s);
        Seq::empty()
    }
}

proof fn lemma_end(s: Text) -> (b: Text)
    ensures
        all_space(b),
        s == trimmed_end(s) + b,
        trimmed_end(s).len() > 0 ==> !is_space(trimmed_end(s).last()),
    decreases s.len(),
{
    if s.len() > 0 && is_space(s.last()) {
        let r = lemma_end(s.drop_last());
        let b = r.push(s.last());
        assert(s =~= (trimmed_end(s.drop_last()) + r).push(s.last()));
        assert(s =~= trimmed_end(s) + b);
        b
    } else {
        assert(s =~= s + Seq::<char>::empty());
        Seq::empty()
    }
}

/// Chomping takes line ends off the end and nothing else.
pub proof fn law_chomping_takes_line_ends(s: Text)
    ensures
        chomped(s).len() <= s.len(),
        s.take(chomped(s).len() as int) == chomped(s),
        forall|i: int|
            chomped(s).len() <= i < s.len() ==> #[trigger] s[i] == '\n' || s[i] == '\r',
        chomped(s).len() > 0 ==> chomped(s).last() != '\n' && chomped(s).last() != '\r',
    decreases s.len(),
{
    if s.len() > 0 && (s.last() == '\n' || s.last() == '\r') {
        let d = s.drop_last();
        law_chomping_takes_line_ends(d);
        assert(s.take(chomped(s).len() as int) =~= d.take(chomped(d).len() as int));
        assert forall|i: int| chomped(s).len() <= i < s.len() implies #[trigger] s[i] == '\n'
            || s[i] == '\r' by {
            if i < d.len() {
                assert(d[i] == s[i]);
            }
        }
    } else {
        assert(s.take(s.len() as int) =~= s);
    }
}

/// Joining puts the separator between any two neighbours, and nowhere else.
pub proof fn law_joining_puts_the_separator_between(a: Seq<Text>, b: Seq<Text>, sep: Text)
    ensures
        joined(Seq::empty(), sep) == Seq::<char>::empty(),
        a.len() == 1 ==> joined(a, sep) == a[0],
        a.len() > 0 && b.len() > 0 ==> joined(a + b, sep) == joined(a, sep) + sep + joined(b, sep),
    decreases b.len(),
{
    if a.len() > 0 && b.len() > 0 {
        let all = a + b;
        let d = b.drop_last();
        assert(all.drop_last() =~= a + d);
        assert(all.last() == b.last());
        if d.len() == 0 {
            assert(a + d =~= a);
            assert(joined(b, sep) == b.last());
            assert(joined(all, sep) =~= joined(a, sep) + sep + joined(b, sep));
        } else {
            law_joining_puts_the_separator_between(a, d, sep);
            assert(joined(all, sep) =~= joined(a, sep) + sep + joined(b, sep));
        }
    }
}

/// Splitting at a character gives parts without it that joined by it are the text.
pub proof fn law_parts_join_to_the_text(s: Text, c: char)
    ensures
        parts_of(s, c).len() > 0,
        joined(parts_of(s, c), seq![c]) == s,
        forall|i: int| 0 <= i < parts_of(s, c).len() ==> !(#[trigger] parts_of(s, c)[i]).contains(c),
    decreases s.len(),
{
    law_cutting_at_the_first(s, c);
    if let Some(i) = pos_of(s, c) {
        let rest = s.skip(i + 1);
        law_parts_join_to_the_text(rest, c);
        law_joining_puts_the_separator_between(seq![s.take(i)], parts_of(rest, c), seq![c]);
        assert(s =~= s.take(i) + seq![c] + rest);
        assert forall|k: int| 0 <= k < parts_of(s, c).len() implies !(
        #[trigger] parts_of(s, c)[k]).contains(c) by {
            if k > 0 {
                assert(parts_of(s, c)[k] == parts_of(rest, c)[k - 1]);
            } else {
                assert(cut(s, c) == Some((s.take(i), s.skip(i + 1))));
            }
        }
    }
}

/// Lines end at line feeds, which are not part of them, nor is a carriage return
/// before one; what stands behind the last line feed is a line where it is not
/// empty.
pub proof fn law_lines_end_at_line_feeds(l: Text, rest: Text)
    requires
        !l.contains('\n'),
    ensures
        lines_of(Seq::empty()) == Seq::<Text>::empty(),
        l.len() > 0 ==> lines_of(l) == seq![l],
        lines_of(l + seq!['\n'] + rest) == seq![without_cr(l)] + lines_of(rest),
        without_cr(l.push('\r')) == l,
        l.len() > 0 && l.last() != '\r' ==> without_cr(l) == l,
{
    lemma_pos_from(l, '\n', 0);
    let s = l + seq!['\n'] + rest;
    lemma_pos_from(s, '\n', 0);
    assert(s[l.len() as int] == '\n');
    if let Some(i) = pos_of(s, '\n') {
        if i < l.len() {
            assert(l[i] == s[i]);
        }
        assert(i == l.len());
        assert(s.take(i) =~= l);
        assert(s.skip(i + 1) =~= rest);
    }
    assert(l.push('\r').drop_last() =~= l);
}

/// Words are what stands between white space.
pub proof fn law_words_stand_between_space(w: Text, c: char, rest: Text)
    requires
        is_space(c),
    ensures
        words_of(seq![c] + rest) == words_of(rest),
        w.len() > 0 && (forall|i: int| 0 <= i < w.len() ==> !is_space(#[trigger] w[i])) ==> words_of(
            w,
        ) == seq![w] && words_of(w + seq![c] + rest) == seq![w] + words_of(rest),
        words_of(Seq::empty()) == Seq::<Text>::empty(),
{
    reveal_with_fuel(words_of, 2);
    assert((seq![c] + rest).skip(1) =~= rest);
    assert((seq![c] + rest)[0] == c);
    if w.len() > 0 && (forall|i: int| 0 <= i < w.len() ==> !is_space(#[trigger] w[i])) {
        let s = w + seq![c] + rest;
        lemma_word(s, w.len() as int);
        lemma_whole_word(w);
        assert(s[0] == w[0]);
        assert(s.take(w.len() as int) =~= w);
        assert(s.skip(w.len() as int) =~= seq![c] + rest);
        assert(w.take(w.len() as int) =~= w);
        assert(w.skip(w.len() as int) =~= Seq::empty());
        assert(seq![w] + Seq::<Text>::empty() =~= seq![w]);
    }
}

proof fn lemma_word(s: Text, n: int)
    requires
        0 <= n < s.len(),
        is_space(s[n]),
        forall|i: int| 0 <= i < n ==> !is_space(#[trigger] s[i]),
    ensures
        word_len(s) == n,
    decreases n,
{
    if n > 0 {
        assert(!is_space(s[0]));
        let t = s.skip(1);
        assert forall|i: int| 0 <= i < n - 1 implies !is_space(#[trigger] t[i]) by {
            assert(!is_space(s[i + 1]));
        }
        lemma_word(t, n - 1);
    }
}

proof fn lemma_whole_word(s: Text)
    requires
        forall|i: int| 0 <= i < s.len() ==> !is_space(#[trigger] s[i]),
    ensures
        word_len(s) == s.len(),
    decreases s.len(),
{
    if s.len() > 0 {
        assert(!is_space(s[0]));
        let t = s.skip(1);
        assert forall|i: int| 0 <= i < t.len() implies !is_space(#[trigger] t[i]) by {
            assert(!is_space(s[i + 1]));
        }
        lemma_whole_word(t);
    }
}

/// Replacing puts the new text for each place of the old, from the left, and
/// keeps the rest.
pub proof fn law_replacing_goes_from_the_left(a: Text, p: Text, by: Text, b: Text)
    requires
        p.len() > 0,
    ensures
        !holds(a, p) ==> replaced(a, p, by) == a,
        index_of(a + p + b, p) == Some(a.len() as int) ==> replaced(a + p + b, p, by) == a + by
            + replaced(b, p, by),
{
    let s = a + p + b;
    assert(s.take(a.len() as int) =~= a);
    assert(s.skip(a.len() + p.len() as int) =~= b);
}

} // verus!
