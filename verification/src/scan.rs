//! Searching, trimming, splitting, joining and replacing text.

pub mod laws;

use crate::text::{
    chars_of, has_at, is_at, is_empty, is_space, is_whitespace, slice_text, texts, Text,
};
use vstd::prelude::*;

verus! {

// ---------------------------------------------------------------------------
// Searching
// ---------------------------------------------------------------------------

/// The first position at or after `i` where `p` stands in `s`.
pub open spec fn index_from(s: Text, p: Text, i: int) -> Option<int>
    decreases s.len() + 1 - i,
{
    if i < 0 || i + p.len() > s.len() {
        None
    } else if has_at(s, p, i) {
        Some(i)
    } else {
        index_from(s, p, i + 1)
    }
}

/// The first position where `p` stands in `s`.
pub open spec fn index_of(s: Text, p: Text) -> Option<int> {
    index_from(s, p, 0)
}

/// The first position at or after `i` of the character `c` in `s`.
pub open spec fn pos_from(s: Text, c: char, i: int) -> Option<int>
    decreases s.len() - i,
{
    if i < 0 || i >= s.len() {
        None
    } else if s[i] == c {
        Some(i)
    } else {
        pos_from(s, c, i + 1)
    }
}

/// The first position of the character `c` in `s`.
pub open spec fn pos_of(s: Text, c: char) -> Option<int> {
    pos_from(s, c, 0)
}

/// A found position holds the pattern, and none before it does.
pub proof fn lemma_index_from(s: Text, p: Text, i: int)
    requires
        0 <= i,
    ensures
        index_from(s, p, i) matches Some(k) ==> i <= k && has_at(s, p, k) && (forall|j: int|
            i <= j < k ==> !has_at(s, p, j)),
        index_from(s, p, i) is None ==> forall|j: int| i <= j ==> !has_at(s, p, j),
    decreases s.len() + 1 - i,
{
    if i + p.len() <= s.len() && !has_at(s, p, i) {
        lemma_index_from(s, p, i + 1);
    }
}

/// A found position holds the character, and none before it does.
pub proof fn lemma_pos_from(s: Text, c: char, i: int)
    requires
        0 <= i,
    ensures
        pos_from(s, c, i) matches Some(k) ==> i <= k < s.len() && s[k] == c && (forall|j: int|
            i <= j < k ==> s[j] != c),
        pos_from(s, c, i) is None ==> forall|j: int| i <= j < s.len() ==> s[j] != c,
    decreases s.len() - i,
{
    if i < s.len() && s[i] != c {
        lemma_pos_from(s, c, i + 1);
    }
}

/// The optional position as a mathematical integer.
pub open spec fn opt_pos(o: Option<usize>) -> Option<int> {
    match o {
        Some(i) => Some(i as int),
        None => None,
    }
}

/// The first position at or after `from` where `p` stands in `s`.
pub fn find_from(s: &Vec<char>, p: &Vec<char>, from: usize) -> (r: Option<usize>)
    ensures
        opt_pos(r) == index_from(s@, p@, from as int),
{
    let n = s.len();
    if from > n {
        return None;
    }
    let mut i: usize = from;
    while p.len() <= n - i
        invariant
            i <= n,
            n == s@.len(),
            index_from(s@, p@, i as int) == index_from(s@, p@, from as int),
        decreases n - i,
    {
        if is_at(s, p, i) {
            return Some(i);
        }
        if i == n {
            assert(index_from(s@, p@, i + 1) is None);
            return None;
        }
        i += 1;
    }
    None
}

/// The first position of `p` in `s`, counted in characters.
pub fn find(s: &str, p: &str) -> (r: Option<usize>)
    ensures
        opt_pos(r) == index_of(s@, p@),
{
    find_from(&chars_of(s), &chars_of(p), 0)
}

/// Whether `s` holds `p` somewhere.
pub open spec fn holds(s: Text, p: Text) -> bool {
    index_of(s, p) is Some
}

/// Whether a string holds the given text somewhere.
pub fn contains(s: &str, p: &str) -> (r: bool)
    ensures
        r == holds(s@, p@),
{
    find(s, p).is_some()
}

/// The first position at or after `from` of a character.
pub fn find_char_from(s: &Vec<char>, c: char, from: usize) -> (r: Option<usize>)
    ensures
        opt_pos(r) == pos_from(s@, c, from as int),
{
    let n = s.len();
    let mut i: usize = from;
    while i < n
        invariant
            n == s@.len(),
            pos_from(s@, c, i as int) == pos_from(s@, c, from as int),
        decreases n - i,
    {
        if s[i] == c {
            return Some(i);
        }
        i += 1;
    }
    None
}

/// The last position of a character: none after it holds the character.
pub open spec fn last_pos(s: Text, c: char) -> Option<int>
    decreases s.len(),
{
    if s.len() == 0 {
        None
    } else if s.last() == c {
        Some(s.len() - 1)
    } else {
        last_pos(s.drop_last(), c)
    }
}

/// The last position of a character.
pub fn rfind_char(s: &Vec<char>, c: char) -> (r: Option<usize>)
    ensures
        opt_pos(r) == last_pos(s@, c),
        r matches Some(i) ==> i < s@.len(),
{
    let mut i: usize = s.len();
    assert(s@.take(i as int) == s@);
    while i > 0
        invariant
            i <= s@.len(),
            last_pos(s@.take(i as int), c) == last_pos(s@, c),
        decreases i,
    {
        assert(s@.take(i as int).last() == s@[i - 1]);
        assert(s@.take(i as int).drop_last() == s@.take(i - 1));
        if s[i - 1] == c {
            return Some(i - 1);
        }
        i -= 1;
    }
    None
}

// ---------------------------------------------------------------------------
// Trimming
// ---------------------------------------------------------------------------

/// `s` without leading whitespace.
pub open spec fn trimmed_start(s: Text) -> Text
    decreases s.len(),
{
    if s.len() > 0 && is_space(s[0]) {
        trimmed_start(s.skip(1))
    } else {
        s
    }
}

/// `s` without trailing whitespace.
pub open spec fn trimmed_end(s: Text) -> Text
    decreases s.len(),
{
    if s.len() > 0 && is_space(s.last()) {
        trimmed_end(s.drop_last())
    } else {
        s
    }
}

/// `s` without leading and trailing whitespace.
pub open spec fn trimmed(s: Text) -> Text {
    trimmed_end(trimmed_start(s))
}

/// `s` holds nothing but whitespace.
pub open spec fn is_blank(s: Text) -> bool {
    trimmed(s).len() == 0
}

/// Trimming takes no more than there is.
proof fn lemma_trimmed_len(s: Text)
    ensures
        trimmed_start(s).len() <= s.len(),
        trimmed_end(s).len() <= s.len(),
    decreases s.len(),
{
    if s.len() > 0 {
        lemma_trimmed_len(s.skip(1));
        lemma_trimmed_len(s.drop_last());
    }
}

/// What neither starts nor ends with white space is trimmed.
pub proof fn lemma_trimmed_alone(s: Text)
    requires
        s.len() > 0,
        !is_space(s[0]),
        !is_space(s.last()),
    ensures
        trimmed(s) == s,
{
}

/// What is trimmed and not empty does not start with white space.
pub proof fn lemma_trimmed_start(s: Text)
    requires
        s.len() > 0,
        trimmed(s) == s,
    ensures
        !is_space(s[0]),
{
    if is_space(s[0]) {
        lemma_trimmed_len(s.skip(1));
        lemma_trimmed_len(trimmed_start(s));
    }
}

/// What starts with something else than white space keeps its start.
proof fn lemma_end_keeps(s: Text)
    requires
        s.len() > 0,
        !is_space(s[0]),
    ensures
        trimmed_end(s).len() > 0,
    decreases s.len(),
{
    if s.len() > 1 {
        lemma_end_keeps(s.drop_last());
    }
}

/// What starts with something else than white space is not blank.
pub proof fn lemma_not_blank(s: Text)
    requires
        s.len() > 0,
        !is_space(s[0]),
    ensures
        !is_blank(s),
{
    lemma_end_keeps(s);
}

/// The number of leading whitespace characters at or after `from`.
pub fn skip_space(v: &Vec<char>, from: usize) -> (r: usize)
    requires
        from <= v@.len(),
    ensures
        from <= r <= v@.len(),
        trimmed_start(v@.skip(from as int)) == v@.skip(r as int),
        r < v@.len() ==> !is_space(v@[r as int]),
{
    let mut i: usize = from;
    while i < v.len() && is_whitespace(v[i])
        invariant
            from <= i <= v@.len(),
            trimmed_start(v@.skip(from as int)) == trimmed_start(v@.skip(i as int)),
        decreases v@.len() - i,
    {
        assert(v@.skip(i as int).skip(1) == v@.skip(i + 1));
        i += 1;
    }
    i
}

/// Trim a string.
pub fn trim(s: &str) -> (r: String)
    ensures
        r@ == trimmed(s@),
{
    let v = chars_of(s);
    let from = skip_space(&v, 0);
    assert(v@.skip(0) == v@);
    let mut to: usize = v.len();
    assert(v@.skip(from as int) == v@.subrange(from as int, to as int));
    while to > from && is_whitespace(v[to - 1])
        invariant
            from <= to <= v@.len(),
            trimmed_end(v@.skip(from as int)) == trimmed_end(v@.subrange(from as int, to as int)),
        decreases to,
    {
        assert(v@.subrange(from as int, to as int).drop_last() == v@.subrange(from as int, to - 1));
        to -= 1;
    }
    slice_text(&v, from, to)
}

/// Whether a string holds nothing but whitespace.
pub fn blank(s: &str) -> (r: bool)
    ensures
        r == is_blank(s@),
{
    trim(s).as_str().is_empty()
}

/// `s` without trailing line feeds and carriage returns.
pub open spec fn chomped(s: Text) -> Text
    decreases s.len(),
{
    if s.len() > 0 && (s.last() == '\n' || s.last() == '\r') {
        chomped(s.drop_last())
    } else {
        s
    }
}

/// Strip trailing line feeds and carriage returns.
pub fn chomp(s: &str) -> (r: String)
    ensures
        r@ == chomped(s@),
{
    let v = chars_of(s);
    let mut to: usize = v.len();
    assert(v@.take(to as int) == s@);
    while to > 0 && (v[to - 1] == '\n' || v[to - 1] == '\r')
        invariant
            to <= v@.len(),
            chomped(v@.take(to as int)) == chomped(s@),
        decreases to,
    {
        assert(v@.take(to as int).drop_last() == v@.take(to - 1));
        to -= 1;
    }
    slice_text(&v, 0, to)
}

// ---------------------------------------------------------------------------
// Splitting
// ---------------------------------------------------------------------------

/// The two sides of the first `c` in `s`.
pub open spec fn cut(s: Text, c: char) -> Option<(Text, Text)> {
    match pos_of(s, c) {
        Some(i) => Some((s.take(i), s.skip(i + 1))),
        None => None,
    }
}

/// The two sides of the last `c` in `s`.
pub open spec fn cut_last(s: Text, c: char) -> Option<(Text, Text)> {
    match last_pos(s, c) {
        Some(i) => Some((s.take(i), s.skip(i + 1))),
        None => None,
    }
}

/// The contents of an optional pair of strings.
pub open spec fn opt_pair(o: Option<(String, String)>) -> Option<(Text, Text)> {
    match o {
        Some(p) => Some((p.0@, p.1@)),
        None => None,
    }
}

/// Split a string at the first `c`.
pub fn split_once(s: &str, c: char) -> (r: Option<(String, String)>)
    ensures
        opt_pair(r) == cut(s@, c),
{
    let v = chars_of(s);
    let n = v.len();
    proof {
        lemma_pos_from(s@, c, 0);
    }
    match find_char_from(&v, c, 0) {
        Some(i) => {
            let a = slice_text(&v, 0, i);
            let b = slice_text(&v, i + 1, n);
            assert(a@ == s@.take(i as int));
            assert(b@ == s@.skip(i + 1));
            Some((a, b))
        },
        None => None,
    }
}

/// Split a string at the last `c`.
pub fn rsplit_once(s: &str, c: char) -> (r: Option<(String, String)>)
    ensures
        opt_pair(r) == cut_last(s@, c),
{
    let v = chars_of(s);
    let n = v.len();
    match rfind_char(&v, c) {
        Some(i) => {
            let a = slice_text(&v, 0, i);
            let b = slice_text(&v, i + 1, n);
            assert(a@ == s@.take(i as int));
            assert(b@ == s@.skip(i + 1));
            Some((a, b))
        },
        None => None,
    }
}

/// The parts of `s` between occurrences of `c`.
pub open spec fn parts_of(s: Text, c: char) -> Seq<Text>
    decreases s.len(),
{
    match pos_of(s, c) {
        Some(i) => if 0 <= i < s.len() {
            seq![s.take(i)] + parts_of(s.skip(i + 1), c)
        } else {
            seq![s]
        },
        None => seq![s],
    }
}

/// Split a string at every `c`.
pub fn split(s: &str, c: char) -> (r: Vec<String>)
    ensures
        texts(r@) == parts_of(s@, c),
{
    let v = chars_of(s);
    let n = v.len();
    let mut out: Vec<String> = Vec::new();
    let mut from: usize = 0;
    assert(s@.skip(0) == s@);
    loop
        invariant
            n == v@.len(),
            v@ == s@,
            from <= n,
            parts_of(s@, c) == texts(out@) + parts_of(s@.skip(from as int), c),
        decreases n - from,
    {
        let ghost rest = s@.skip(from as int);
        proof {
            lemma_pos_from(s@, c, from as int);
            lemma_pos_skip(s@, c, from as int);
        }
        match find_char_from(&v, c, from) {
            Some(i) => {
                let part = slice_text(&v, from, i);
                assert(part@ == rest.take(i - from));
                assert(rest.skip(i - from + 1) == s@.skip(i + 1));
                let ghost before = out@;
                out.push(part);
                assert(texts(out@) =~= texts(before) + seq![rest.take(i - from)]);
                assert(texts(out@) + parts_of(s@.skip(i + 1), c) =~= texts(before) + (seq![
                    rest.take(i - from),
                ] + parts_of(s@.skip(i + 1), c)));
                from = i + 1;
            },
            None => {
                let part = slice_text(&v, from, n);
                assert(part@ == rest);
                let ghost before = out@;
                out.push(part);
                assert(texts(out@) =~= texts(before) + seq![rest]);
                return out;
            },
        }
    }
}

/// Searching from `k` is searching the rest of the text.
pub proof fn lemma_pos_skip(s: Text, c: char, k: int)
    requires
        0 <= k <= s.len(),
    ensures
        pos_from(s, c, k) == (match pos_of(s.skip(k), c) {
            Some(i) => Some(i + k),
            None => None,
        }),
{
    lemma_pos_from(s, c, k);
    lemma_pos_from(s.skip(k), c, 0);
    let r = s.skip(k);
    match pos_from(s, c, k) {
        Some(i) => {
            assert(r[i - k] == c);
        },
        None => {
            match pos_of(r, c) {
                Some(i) => {
                    assert(s[i + k] == c);
                },
                None => {},
            }
        },
    }
    if pos_from(s, c, k) is Some && pos_of(r, c) is Some {
        let i = pos_from(s, c, k)->0;
        let j = pos_of(r, c)->0;
        assert(s[j + k] == r[j]);
        assert(r[i - k] == s[i]);
    }
}

/// Searching from `k` is searching the rest of the text.
pub proof fn lemma_index_skip(s: Text, p: Text, k: int)
    requires
        0 <= k <= s.len(),
    ensures
        index_from(s, p, k) == (match index_of(s.skip(k), p) {
            Some(i) => Some(i + k),
            None => None,
        }),
{
    lemma_index_from(s, p, k);
    let r = s.skip(k);
    lemma_index_from(r, p, 0);
    assert forall|i: int| 0 <= i implies has_at(r, p, i) == has_at(s, p, i + k) by {
        if i + p.len() <= r.len() {
            assert(r.subrange(i, i + p.len()) == s.subrange(i + k, i + k + p.len()));
        }
    }
    if index_from(s, p, k) is Some {
        let i = index_from(s, p, k)->0;
        assert(has_at(r, p, i - k));
    }
    if index_of(r, p) is Some {
        let j = index_of(r, p)->0;
        assert(has_at(s, p, j + k));
    }
}

/// `s` without one trailing carriage return.
pub open spec fn without_cr(s: Text) -> Text {
    if s.len() > 0 && s.last() == '\r' {
        s.drop_last()
    } else {
        s
    }
}

/// The lines of `s`: ended by a line feed, or a carriage return and a line
/// feed; a last line needs no end, and an empty last line is none.
pub open spec fn lines_of(s: Text) -> Seq<Text>
    decreases s.len(),
{
    if s.len() == 0 {
        Seq::empty()
    } else {
        match pos_of(s, '\n') {
            Some(i) => if 0 <= i < s.len() {
                seq![without_cr(s.take(i))] + lines_of(s.skip(i + 1))
            } else {
                seq![s]
            },
            None => seq![s],
        }
    }
}

/// The lines of a string.
pub fn lines(s: &str) -> (r: Vec<String>)
    ensures
        texts(r@) == lines_of(s@),
{
    let v = chars_of(s);
    let n = v.len();
    let mut out: Vec<String> = Vec::new();
    let mut from: usize = 0;
    assert(s@.skip(0) == s@);
    while from < n
        invariant
            n == v@.len(),
            v@ == s@,
            from <= n,
            lines_of(s@) == texts(out@) + lines_of(s@.skip(from as int)),
        decreases n - from,
    {
        let ghost rest = s@.skip(from as int);
        let ghost before = out@;
        proof {
            lemma_pos_from(s@, '\n', from as int);
            lemma_pos_skip(s@, '\n', from as int);
        }
        match find_char_from(&v, '\n', from) {
            Some(i) => {
                let mut to: usize = i;
                if to > from && v[to - 1] == '\r' {
                    to -= 1;
                }
                let line = slice_text(&v, from, to);
                assert(line@ == without_cr(rest.take(i - from)));
                assert(rest.skip(i - from + 1) == s@.skip(i + 1));
                out.push(line);
                assert(texts(out@) =~= texts(before) + seq![line@]);
                assert(texts(out@) + lines_of(s@.skip(i + 1)) =~= texts(before) + (seq![line@]
                    + lines_of(s@.skip(i + 1))));
                from = i + 1;
            },
            None => {
                let line = slice_text(&v, from, n);
                assert(line@ == rest);
                out.push(line);
                assert(texts(out@) =~= texts(before) + seq![rest]);
                return out;
            },
        }
    }
    assert(texts(out@) + Seq::<Text>::empty() =~= texts(out@));
    out
}

/// The length of the leading run without whitespace.
pub open spec fn word_len(s: Text) -> nat
    decreases s.len(),
{
    if s.len() == 0 || is_space(s[0]) {
        0
    } else {
        1 + word_len(s.skip(1))
    }
}

/// A word is no longer than its text, and a text that does not begin with
/// whitespace begins with a word.
pub proof fn lemma_word_len(s: Text)
    ensures
        word_len(s) <= s.len(),
        s.len() > 0 && !is_space(s[0]) ==> word_len(s) > 0,
    decreases s.len(),
{
    if s.len() > 0 && !is_space(s[0]) {
        lemma_word_len(s.skip(1));
    }
}

/// The parts of `s` between runs of whitespace.
pub open spec fn words_of(s: Text) -> Seq<Text>
    decreases s.len(),
{
    if s.len() == 0 {
        Seq::empty()
    } else if is_space(s[0]) {
        words_of(s.skip(1))
    } else {
        let k = word_len(s) as int;
        if 0 < k <= s.len() {
            seq![s.take(k)] + words_of(s.skip(k))
        } else {
            Seq::empty()
        }
    }
}

/// Split a string at runs of whitespace.
pub fn words(s: &str) -> (r: Vec<String>)
    ensures
        texts(r@) == words_of(s@),
{
    let v = chars_of(s);
    let n = v.len();
    let mut out: Vec<String> = Vec::new();
    let mut from: usize = 0;
    assert(s@.skip(0) == s@);
    while from < n
        invariant
            n == v@.len(),
            v@ == s@,
            from <= n,
            words_of(s@) == texts(out@) + words_of(s@.skip(from as int)),
        decreases n - from,
    {
        let ghost rest = s@.skip(from as int);
        if is_whitespace(v[from]) {
            assert(rest.skip(1) == s@.skip(from + 1));
            from += 1;
        } else {
            let mut to: usize = from;
            while to < n && !is_whitespace(v[to])
                invariant
                    n == v@.len(),
                    v@ == s@,
                    from <= to <= n,
                    word_len(s@.skip(from as int)) == (to - from) + word_len(s@.skip(to as int)),
                decreases n - to,
            {
                assert(s@.skip(to as int).skip(1) == s@.skip(to + 1));
                to += 1;
            }
            proof {
                lemma_word_len(rest);
            }
            assert(word_len(rest) == to - from);
            let word = slice_text(&v, from, to);
            assert(word@ == rest.take(to - from));
            assert(rest.skip(to - from) == s@.skip(to as int));
            let ghost before = out@;
            out.push(word);
            assert(texts(out@) =~= texts(before) + seq![word@]);
            assert(texts(out@) + words_of(s@.skip(to as int)) =~= texts(before) + (seq![word@]
                + words_of(s@.skip(to as int))));
            from = to;
        }
    }
    assert(texts(out@) + Seq::<Text>::empty() =~= texts(out@));
    out
}

// ---------------------------------------------------------------------------
// Joining and replacing
// ---------------------------------------------------------------------------

/// The parts in order, with `sep` between two neighbours.
pub open spec fn joined(parts: Seq<Text>, sep: Text) -> Text
    decreases parts.len(),
{
    if parts.len() == 0 {
        Seq::empty()
    } else if parts.len() == 1 {
        parts[0]
    } else {
        joined(parts.drop_last(), sep) + sep + parts.last()
    }
}

/// Join strings with a separator.
pub fn join(parts: &Vec<String>, sep: &str) -> (r: String)
    ensures
        r@ == joined(texts(parts@), sep@),
{
    let mut out = String::new();
    let mut i: usize = 0;
    while i < parts.len()
        invariant
            i <= parts@.len(),
            out@ == joined(texts(parts@).take(i as int), sep@),
        decreases parts@.len() - i,
    {
        assert(texts(parts@).take(i + 1).drop_last() =~= texts(parts@).take(i as int));
        if i > 0 {
            out.append(sep);
        }
        out.append(parts[i].as_str());
        assert(texts(parts@).take(i + 1).last() == parts@[i as int]@);
        if i == 0 {
            assert(Seq::<char>::empty() + parts@[0]@ =~= parts@[0]@);
        }
        i += 1;
    }
    assert(texts(parts@).take(parts@.len() as int) =~= texts(parts@));
    out
}

/// `s` with `by` before its first character, between any two and behind its last.
pub open spec fn interleaved(s: Text, by: Text) -> Text
    decreases s.len(),
{
    if s.len() == 0 {
        by
    } else {
        by + seq![s[0]] + interleaved(s.skip(1), by)
    }
}

/// `s` with every occurrence of `p`, taken from the left without overlap,
/// replaced by `by`; an empty `p` occurs around every character.
pub open spec fn replaced(s: Text, p: Text, by: Text) -> Text
    decreases s.len(),
{
    if p.len() == 0 {
        interleaved(s, by)
    } else {
        match index_of(s, p) {
            Some(i) => if 0 <= i && i + p.len() <= s.len() {
                s.take(i) + by + replaced(s.skip(i + p.len()), p, by)
            } else {
                s
            },
            None => s,
        }
    }
}

/// Put a text around every character of another.
fn interleave(s: &str, by: &str) -> (r: String)
    ensures
        r@ == interleaved(s@, by@),
{
    let v = chars_of(s);
    let n = v.len();
    let mut out = String::new();
    let mut i: usize = 0;
    assert(s@.skip(0) =~= s@);
    assert(out@ + interleaved(s@, by@) =~= interleaved(s@, by@));
    while i < n
        invariant
            i <= n,
            n == v@.len(),
            v@ == s@,
            interleaved(s@, by@) == out@ + interleaved(s@.skip(i as int), by@),
        decreases n - i,
    {
        let ghost rest = s@.skip(i as int);
        let ghost before = out@;
        let part = slice_text(&v, i, i + 1);
        assert(part@ =~= seq![rest[0]]);
        assert(rest.skip(1) =~= s@.skip(i + 1));
        out.append(by);
        out.append(part.as_str());
        assert(out@ + interleaved(rest.skip(1), by@) =~= before + (by@ + seq![rest[0]]
            + interleaved(rest.skip(1), by@)));
        i += 1;
    }
    out.append(by);
    out
}

/// Replace every occurrence of a pattern.
pub fn replace(s: &str, p: &str, by: &str) -> (r: String)
    ensures
        r@ == replaced(s@, p@, by@),
{
    if is_empty(p) {
        return interleave(s, by);
    }
    let v = chars_of(s);
    let pv = chars_of(p);
    let n = v.len();
    let mut out = String::new();
    let mut from: usize = 0;
    assert(s@.skip(0) == s@);
    assert(Seq::<char>::empty() + replaced(s@, p@, by@) =~= replaced(s@, p@, by@));
    loop
        invariant
            n == v@.len(),
            v@ == s@,
            pv@ == p@,
            p@.len() > 0,
            from <= n,
            replaced(s@, p@, by@) == out@ + replaced(s@.skip(from as int), p@, by@),
        decreases n - from,
    {
        let ghost rest = s@.skip(from as int);
        proof {
            lemma_index_from(s@, p@, from as int);
            lemma_index_skip(s@, p@, from as int);
        }
        match find_from(&v, &pv, from) {
            Some(i) => {
                let part = slice_text(&v, from, i);
                assert(part@ == rest.take(i - from));
                let ghost tail = replaced(s@.skip(i + p@.len()), p@, by@);
                assert(rest.skip(i - from + p@.len()) == s@.skip(i + p@.len()));
                let ghost before = out@;
                out.append(part.as_str());
                out.append(by);
                assert(out@ + tail =~= before + (rest.take(i - from) + by@ + tail));
                from = i + pv.len();
            },
            None => {
                let part = slice_text(&v, from, n);
                assert(part@ == rest);
                out.append(part.as_str());
                return out;
            },
        }
    }
}

} // verus!
