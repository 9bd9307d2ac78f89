//! Keeping secrets out of what is printed.

use crate::scan::{holds, index_of, interleaved, lemma_index_from, replace, replaced};
use crate::strmap::{map_entries, map_entry, map_len, StrMap};
use crate::text::{chars_of, has_at, slice_text, texts, Text};
use vstd::prelude::*;
use vstd::utf8::encode_utf8;

verus! {

/// What stands in place of a secret.
pub open spec fn stars() -> Text {
    "***"@
}

/// How many bytes a text takes.
pub open spec fn byte_len(s: Text) -> nat {
    encode_utf8(s).len()
}

/// A value is long enough to be masked: one of fewer than four characters would
/// garble common text.
pub open spec fn is_maskable(v: Text) -> bool {
    v.len() >= 4
}

/// Whether a value is long enough to be masked.
pub fn maskable(v: &str) -> (r: bool)
    ensures
        r == is_maskable(v@),
{
    chars_of(v).len() >= 4
}

/// How many bytes a string takes.
pub fn bytes(s: &str) -> (r: usize)
    ensures
        r == byte_len(s@),
{
    s.as_bytes().len()
}

/// A mask put among others, longest first; of equal length, the newest last.
pub open spec fn with_mask(masks: Seq<Text>, v: Text) -> Seq<Text>
    decreases masks.len(),
{
    if masks.len() == 0 {
        seq![v]
    } else if byte_len(v) <= byte_len(masks.last()) {
        masks.push(v)
    } else {
        with_mask(masks.drop_last(), v).push(masks.last())
    }
}

/// The masks that values make, longest first.
pub open spec fn masks_of(values: Seq<Text>) -> Seq<Text>
    decreases values.len(),
{
    if values.len() == 0 {
        Seq::empty()
    } else {
        let rest = masks_of(values.drop_last());
        if is_maskable(values.last()) {
            with_mask(rest, values.last())
        } else {
            rest
        }
    }
}

/// The values of a table.
pub open spec fn values_of(m: Seq<(Text, Text)>) -> Seq<Text> {
    m.map_values(|e: (Text, Text)| e.1)
}

/// A text with each mask replaced in turn.
pub open spec fn masked(s: Text, masks: Seq<Text>) -> Text
    decreases masks.len(),
{
    if masks.len() == 0 {
        s
    } else {
        replaced(masked(s, masks.drop_last()), masks.last(), stars())
    }
}

/// All of them can be masked.
pub open spec fn all_maskable(masks: Seq<Text>) -> bool {
    forall|i: int| 0 <= i < masks.len() ==> is_maskable(#[trigger] masks[i])
}

/// Adding a mask keeps masks.
pub proof fn lemma_with_mask(masks: Seq<Text>, v: Text)
    requires
        all_maskable(masks),
        is_maskable(v),
    ensures
        all_maskable(with_mask(masks, v)),
        with_mask(masks, v).len() == masks.len() + 1,
    decreases masks.len(),
{
    if masks.len() > 0 && byte_len(v) > byte_len(masks.last()) {
        lemma_with_mask(masks.drop_last(), v);
    }
}

/// Put a mask among others, longest first.
pub fn add_mask(masks: &mut Vec<String>, v: String)
    ensures
        texts(final(masks)@) == with_mask(texts(old(masks)@), v@),
{
    let ghost all = texts(masks@);
    let mut i: usize = masks.len();
    let need = bytes(v.as_str());
    assert(all.take(i as int) =~= all);
    assert(all.skip(i as int) =~= Seq::empty());
    assert(with_mask(all, v@) =~= with_mask(all.take(i as int), v@) + all.skip(i as int));
    while i > 0 && bytes(masks[i - 1].as_str()) < need
        invariant
            i <= masks@.len(),
            all == texts(masks@),
            need == byte_len(v@),
            with_mask(all, v@) == with_mask(all.take(i as int), v@) + all.skip(i as int),
        decreases i,
    {
        let ghost t = all.take(i as int);
        assert(t.last() == masks@[i - 1]@);
        assert(t.drop_last() =~= all.take(i - 1));
        assert(with_mask(t, v@) == with_mask(t.drop_last(), v@).push(t.last()));
        assert(with_mask(t.drop_last(), v@).push(t.last()) + all.skip(i as int) =~= with_mask(
            t.drop_last(),
            v@,
        ) + all.skip(i - 1));
        i -= 1;
    }
    proof {
        let t = all.take(i as int);
        if i > 0 {
            assert(t.last() == masks@[i - 1]@);
        }
        assert(with_mask(t, v@) =~= t.push(v@));
        assert(t.push(v@) + all.skip(i as int) =~= all.insert(i as int, v@));
    }
    masks.insert(i, v);
    assert(texts(masks@) =~= all.insert(i as int, v@));
}

/// The masks that secrets make, longest first.
pub fn secret_masks(secrets: &StrMap) -> (r: Vec<String>)
    ensures
        texts(r@) == masks_of(values_of(map_entries(*secrets))),
        all_maskable(texts(r@)),
{
    let ghost all = values_of(map_entries(*secrets));
    let n = map_len(secrets);
    let mut out: Vec<String> = Vec::new();
    let mut i: usize = 0;
    assert(all.take(0) =~= Seq::empty());
    assert(texts(out@) =~= Seq::empty());
    while i < n
        invariant
            i <= n,
            n == all.len(),
            n == map_entries(*secrets).len(),
            all == values_of(map_entries(*secrets)),
            texts(out@) == masks_of(all.take(i as int)),
            all_maskable(texts(out@)),
        decreases n - i,
    {
        assert(all.take(i + 1).drop_last() =~= all.take(i as int));
        let (_, v) = map_entry(secrets, i);
        assert(all.take(i + 1).last() == v@);
        if maskable(v.as_str()) {
            proof {
                lemma_with_mask(texts(out@), v@);
            }
            add_mask(&mut out, v);
        }
        i += 1;
    }
    assert(all.take(n as int) =~= all);
    out
}

/// Replace each masked value in a line with `***`, in the order of the masks.
pub fn mask_line(s: &str, masks: &Vec<String>) -> (r: String)
    ensures
        r@ == masked(s@, texts(masks@)),
{
    let ghost all = texts(masks@);
    let mut out = s.to_owned();
    let mut i: usize = 0;
    assert(all.take(0) =~= Seq::empty());
    while i < masks.len()
        invariant
            i <= masks@.len(),
            all == texts(masks@),
            out@ == masked(s@, all.take(i as int)),
        decreases masks@.len() - i,
    {
        assert(all.take(i + 1).drop_last() =~= all.take(i as int));
        assert(all.take(i + 1).last() == masks@[i as int]@);
        out = replace(out.as_str(), masks[i].as_str(), "***");
        i += 1;
    }
    assert(all.take(masks@.len() as int) =~= all);
    out
}

/// A text with every secret masked.
pub open spec fn without_secrets(s: Text, secrets: Seq<(Text, Text)>) -> Text {
    masked(s, masks_of(values_of(secrets)))
}

/// Replace any secret of a meaningful length with `***`, the longest first, so
/// that one that is part of another leaves nothing of it.
pub fn mask_secrets(s: &str, secrets: &StrMap) -> (r: String)
    ensures
        r@ == without_secrets(s@, map_entries(*secrets)),
{
    mask_line(s, &secret_masks(secrets))
}

/// The longest value shown in full.
pub const CLIP: usize = 80;

/// A value on one line, cut where it is long.
pub open spec fn clipped(s: Text) -> Text {
    let one = replaced(s, "\n"@, "⏎"@);
    if one.len() > CLIP {
        one.take(CLIP as int) + "…"@
    } else {
        one
    }
}

/// Shorten a value for a single line.
pub fn clip(s: &str) -> (r: String)
    ensures
        r@ == clipped(s@),
{
    proof {
        reveal_strlit("\n");
    }
    let one = replace(s, "\n", "⏎");
    let v = chars_of(one.as_str());
    if v.len() > CLIP {
        let mut t = slice_text(&v, 0, CLIP);
        assert(t@ =~= one@.take(CLIP as int));
        t.append("…");
        t
    } else {
        one
    }
}

// ---------------------------------------------------------------------------
// Laws
// ---------------------------------------------------------------------------

/// Where a text is held, it is held somewhere.
proof fn lemma_holds(s: Text, p: Text)
    ensures
        holds(s, p) <==> exists|k: int| #[trigger] has_at(s, p, k),
{
    lemma_index_from(s, p, 0);
    if holds(s, p) {
        let k = index_of(s, p)->Some_0;
        assert(has_at(s, p, k));
    }
    if exists|k: int| #[trigger] has_at(s, p, k) {
        let k = choose|k: int| #[trigger] has_at(s, p, k);
        assert(has_at(s, p, k));
    }
}

/// A text that stars cannot make up: it neither begins nor ends with a star, and
/// holds no three of them in a row.
pub open spec fn is_apart_from_stars(s: Text) -> bool {
    &&& s.len() > 0 ==> s[0] != '*' && s.last() != '*'
    &&& forall|i: int| 0 <= i < s.len() - 2 ==> #[trigger] s[i] != '*' || s[i + 1] != '*' || s[i + 2] != '*'
}

/// Where such a text stands in `a` + stars + `b`, it stands in `a` or in `b`.
proof fn lemma_beside_stars(a: Text, b: Text, q: Text, k: int)
    requires
        is_apart_from_stars(q),
        q.len() > 0,
        has_at(a + stars() + b, q, k),
    ensures
        has_at(a, q, k) || has_at(b, q, k - a.len() - 3),
{
    reveal_strlit("***");
    let w = a + stars() + b;
    assert(forall|i: int| 0 <= i < q.len() ==> w[k + i] == #[trigger] w.subrange(k, k + q.len())[i]);
    if k + q.len() <= a.len() {
        assert(a.subrange(k, k + q.len()) =~= q);
    } else if k >= a.len() + 3 {
        let j = k - a.len() - 3;
        assert(b.subrange(j, j + q.len()) =~= q);
    } else if k >= a.len() {
        assert(w[k] == '*');
        assert(q[0] == w[k + 0]);
        assert(q[0] != '*');
    } else {
        let i = a.len() - k;
        assert(w[k + i] == '*');
        assert(q[i] == w[k + i]);
        let n = q.len() - 1;
        assert(q[n] == w[k + n]);
        if i + 2 <= n {
            assert(q[i + 1] == w[k + (i + 1)]);
            assert(q[i + 2] == w[k + (i + 2)]);
            assert(w[k + (i + 1)] == '*' && w[k + (i + 2)] == '*');
        } else {
            assert(w[k + n] == '*');
        }
    }
}

/// Replacing by stars brings in no such text.
proof fn lemma_nothing_new(s: Text, p: Text, q: Text)
    requires
        is_apart_from_stars(q),
        q.len() > 0,
        holds(replaced(s, p, stars()), q),
    ensures
        holds(s, q),
    decreases s.len(),
{
    if p.len() > 0 {
        lemma_index_from(s, p, 0);
        match index_of(s, p) {
            Some(i) => {
                let rest = s.skip(i + p.len());
                let tail = replaced(rest, p, stars());
                let a = s.take(i);
                lemma_holds(a + stars() + tail, q);
                let k = choose|k: int| #[trigger] has_at(a + stars() + tail, q, k);
                lemma_beside_stars(a, tail, q, k);
                lemma_holds(s, q);
                if has_at(a, q, k) {
                    assert(s.subrange(k, k + q.len()) =~= a.subrange(k, k + q.len()));
                    assert(has_at(s, q, k));
                } else {
                    lemma_holds(tail, q);
                    assert(has_at(tail, q, k - a.len() - 3));
                    lemma_nothing_new(rest, p, q);
                    lemma_holds(rest, q);
                    let j = choose|j: int| #[trigger] has_at(rest, q, j);
                    let m = j + i + p.len();
                    assert(s.subrange(m, m + q.len()) =~= rest.subrange(j, j + q.len()));
                    assert(has_at(s, q, m));
                }
            },
            None => {},
        }
    } else {
        lemma_nothing_between(s, q);
    }
}

/// What stands in a text stands in one that ends with it.
proof fn lemma_held_behind(a: Text, b: Text, q: Text)
    requires
        holds(b, q),
    ensures
        holds(a + b, q),
{
    let w = a + b;
    lemma_holds(b, q);
    lemma_holds(w, q);
    let k = choose|k: int| #[trigger] has_at(b, q, k);
    let m = k + a.len();
    assert(w.subrange(m, m + q.len()) =~= b.subrange(k, k + q.len()));
    assert(has_at(w, q, m));
}

/// What stands in `a` + stars + `b` stands in `a` or in `b`, unless stars can make
/// it up.
proof fn lemma_held_beside(a: Text, b: Text, q: Text)
    requires
        is_apart_from_stars(q),
        q.len() > 0,
        holds(a + stars() + b, q),
    ensures
        holds(a, q) || holds(b, q),
{
    let w = a + stars() + b;
    lemma_holds(w, q);
    lemma_holds(a, q);
    lemma_holds(b, q);
    let k = choose|k: int| #[trigger] has_at(w, q, k);
    lemma_beside_stars(a, b, q, k);
}

/// A text that is held is no longer than what holds it.
proof fn lemma_held_fits(s: Text, q: Text)
    requires
        holds(s, q),
    ensures
        q.len() <= s.len(),
{
    lemma_holds(s, q);
}

/// Stars around every character bring in no such text.
proof fn lemma_nothing_between(s: Text, q: Text)
    requires
        is_apart_from_stars(q),
        q.len() > 0,
        holds(interleaved(s, stars()), q),
    ensures
        holds(s, q),
    decreases s.len(),
{
    let none = Seq::<char>::empty();
    let w = interleaved(s, stars());
    if s.len() == 0 {
        assert(w =~= none + stars() + none);
        lemma_held_beside(none, none, q);
        lemma_held_fits(none, q);
    } else {
        let one = seq![s[0]];
        let rest = s.skip(1);
        let more = interleaved(rest, stars());
        assert(w =~= none + stars() + (one + more));
        lemma_held_beside(none, one + more, q);
        if holds(none, q) {
            lemma_held_fits(none, q);
        }
        let tail = if rest.len() == 0 {
            none
        } else {
            seq![rest[0]] + interleaved(rest.skip(1), stars())
        };
        assert(more =~= stars() + tail);
        assert(one + more =~= one + stars() + tail);
        lemma_held_beside(one, tail, q);
        assert(one + rest =~= s);
        if holds(tail, q) {
            lemma_held_behind(stars(), tail, q);
            lemma_nothing_between(rest, q);
            lemma_held_behind(one, rest, q);
        } else {
            lemma_holds(one, q);
            lemma_holds(s, q);
            let k = choose|k: int| #[trigger] has_at(one, q, k);
            assert(s.subrange(k, k + q.len()) =~= one.subrange(k, k + q.len()));
            assert(has_at(s, q, k));
        }
    }
}

/// Replacing such a text by stars leaves none of it.
proof fn lemma_all_replaced(s: Text, p: Text)
    requires
        is_apart_from_stars(p),
        p.len() > 0,
    ensures
        !holds(replaced(s, p, stars()), p),
    decreases s.len(),
{
    lemma_index_from(s, p, 0);
    match index_of(s, p) {
        Some(i) => {
            let rest = s.skip(i + p.len());
            let tail = replaced(rest, p, stars());
            let a = s.take(i);
            lemma_all_replaced(rest, p);
            if holds(a + stars() + tail, p) {
                lemma_holds(a + stars() + tail, p);
                let k = choose|k: int| #[trigger] has_at(a + stars() + tail, p, k);
                lemma_beside_stars(a, tail, p, k);
                if has_at(a, p, k) {
                    assert(s.subrange(k, k + p.len()) =~= a.subrange(k, k + p.len()));
                    assert(has_at(s, p, k));
                } else {
                    lemma_holds(tail, p);
                    assert(has_at(tail, p, k - a.len() - 3));
                }
            }
        },
        None => {},
    }
}

/// Masks leave nothing of such a mask among them.
pub proof fn lemma_masked(s: Text, masks: Seq<Text>, v: Text)
    requires
        masks.contains(v),
        is_apart_from_stars(v),
        v.len() > 0,
    ensures
        !holds(masked(s, masks), v),
    decreases masks.len(),
{
    let rest = masks.drop_last();
    if masks.last() == v {
        lemma_all_replaced(masked(s, rest), v);
    } else {
        let k = choose|k: int| 0 <= k < masks.len() && masks[k] == v;
        assert(rest[k] == v);
        lemma_masked(s, rest, v);
        if holds(masked(s, masks), v) {
            lemma_nothing_new(masked(s, rest), masks.last(), v);
        }
    }
}

/// Adding a mask loses none.
pub proof fn lemma_mask_kept(masks: Seq<Text>, v: Text, w: Text)
    ensures
        with_mask(masks, v).contains(v),
        masks.contains(w) ==> with_mask(masks, v).contains(w),
    decreases masks.len(),
{
    let r = with_mask(masks, v);
    if masks.len() == 0 {
        assert(r[0] == v);
    } else if byte_len(v) <= byte_len(masks.last()) {
        assert(r[masks.len() as int] == v);
        if masks.contains(w) {
            let k = choose|k: int| 0 <= k < masks.len() && masks[k] == w;
            assert(r[k] == w);
        }
    } else {
        let d = masks.drop_last();
        let e = with_mask(d, v);
        lemma_mask_kept(d, v, w);
        let i = choose|i: int| 0 <= i < e.len() && e[i] == v;
        assert(r[i] == v);
        if masks.contains(w) {
            let k = choose|k: int| 0 <= k < masks.len() && masks[k] == w;
            if k < d.len() {
                assert(d[k] == w);
                let j = choose|j: int| 0 <= j < e.len() && e[j] == w;
                assert(r[j] == w);
            } else {
                assert(r[e.len() as int] == w);
            }
        }
    }
}

/// Every value that can be masked is among the masks.
proof fn lemma_values_masked(values: Seq<Text>, v: Text)
    requires
        values.contains(v),
        is_maskable(v),
    ensures
        masks_of(values).contains(v),
    decreases values.len(),
{
    let rest = values.drop_last();
    let k = choose|k: int| 0 <= k < values.len() && values[k] == v;
    if k < rest.len() {
        assert(rest[k] == v);
        lemma_values_masked(rest, v);
    }
    if is_maskable(values.last()) {
        lemma_mask_kept(masks_of(rest), values.last(), v);
    }
}

/// Masking leaves nothing of a secret of at least four characters, whatever the other
/// secrets are, unless stars can make it up: one that begins or ends with a star
/// or holds three in a row can arise where another secret is masked.
pub proof fn law_no_secret_is_left(s: Text, secrets: Seq<(Text, Text)>, i: int)
    requires
        0 <= i < secrets.len(),
        is_maskable(secrets[i].1),
        is_apart_from_stars(secrets[i].1),
    ensures
        !holds(without_secrets(s, secrets), secrets[i].1),
{
    let values = values_of(secrets);
    assert(values[i] == secrets[i].1);
    lemma_values_masked(values, secrets[i].1);
    lemma_masked(s, masks_of(values), secrets[i].1);
}

/// Masking leaves a text alone that holds no secret.
pub proof fn law_other_text_is_kept(s: Text, masks: Seq<Text>)
    requires
        forall|i: int| 0 <= i < masks.len() ==> !holds(s, #[trigger] masks[i]),
    ensures
        masked(s, masks) == s,
    decreases masks.len(),
{
    if masks.len() > 0 {
        let rest = masks.drop_last();
        assert forall|i: int| 0 <= i < rest.len() implies !holds(s, #[trigger] rest[i]) by {
            assert(rest[i] == masks[i]);
        }
        law_other_text_is_kept(s, rest);
        let last = masks[masks.len() - 1];
        assert(!holds(s, last));
        lemma_holds(s, last);
        if last.len() == 0 {
            assert(s.subrange(0, 0) =~= last);
            assert(has_at(s, last, 0));
        }
    }
}

/// Replacing line breaks leaves none.
proof fn lemma_one_line(s: Text)
    ensures
        forall|i: int|
            0 <= i < replaced(s, "\n"@, "⏎"@).len() ==> #[trigger] replaced(s, "\n"@, "⏎"@)[i]
                != '\n',
    decreases s.len(),
{
    reveal_strlit("\n");
    reveal_strlit("⏎");
    let p = "\n"@;
    lemma_index_from(s, p, 0);
    match index_of(s, p) {
        Some(i) => {
            let tail = replaced(s.skip(i + 1), p, "⏎"@);
            lemma_one_line(s.skip(i + 1));
            assert(replaced(s, p, "⏎"@) == s.take(i) + "⏎"@ + tail);
            assert forall|j: int| 0 <= j < i implies s[j] != '\n' by {
                assert(!has_at(s, p, j));
                if s[j] == '\n' {
                    assert(s.subrange(j, j + 1) =~= p);
                }
            }
            let r = replaced(s, p, "⏎"@);
            assert forall|k: int| 0 <= k < r.len() implies #[trigger] r[k] != '\n' by {
                if k > i {
                    assert(r[k] == tail[k - i - 1]);
                }
            }
        },
        None => {
            assert forall|j: int| 0 <= j < s.len() implies s[j] != '\n' by {
                assert(!has_at(s, p, j));
                if s[j] == '\n' {
                    assert(s.subrange(j, j + 1) =~= p);
                }
            }
        },
    }
}

/// A shown value stands on one line and has at most one character over the limit.
pub proof fn law_clipped_fits(s: Text)
    ensures
        clipped(s).len() <= CLIP + 1,
        forall|i: int| 0 <= i < clipped(s).len() ==> #[trigger] clipped(s)[i] != '\n',
{
    reveal_strlit("…");
    lemma_one_line(s);
}

/// Every value of at least four characters is masked, once for each time that it
/// is given, and no other; the longest come first, so that a value is masked whole
/// before what it begins with.
pub proof fn law_which_values_are_masked(values: Seq<Text>, v: Text)
    ensures
        masks_of(values).contains(v) <==> values.contains(v) && v.len() >= 4,
        masks_of(values).len() == values.filter(|x: Text| x.len() >= 4).len(),
        forall|i: int, j: int|
            0 <= i < j < masks_of(values).len() ==> encode_utf8(
                #[trigger] masks_of(values)[i],
            ).len() >= encode_utf8(#[trigger] masks_of(values)[j]).len(),
    decreases values.len(),
{
    reveal(Seq::filter);
    if values.len() > 0 {
        let d = values.drop_last();
        let last = values.last();
        law_which_values_are_masked(d, v);
        assert(values =~= d.push(last));
        if is_maskable(last) {
            lemma_with_mask_order(masks_of(d), last, v);
        }
        if values.contains(v) && v != last {
            let i = choose|i: int| 0 <= i < values.len() && values[i] == v;
            assert(d[i] == v);
        }
        if d.contains(v) {
            let i = choose|i: int| 0 <= i < d.len() && d[i] == v;
            assert(values[i] == v);
        }
        if v == last {
            assert(values[values.len() - 1] == v);
        }
    }
}

proof fn lemma_with_mask_order(masks: Seq<Text>, x: Text, v: Text)
    requires
        forall|i: int, j: int|
            0 <= i < j < masks.len() ==> byte_len(#[trigger] masks[i]) >= byte_len(
                #[trigger] masks[j],
            ),
    ensures
        with_mask(masks, x).len() == masks.len() + 1,
        with_mask(masks, x).contains(v) <==> masks.contains(v) || v == x,
        forall|i: int, j: int|
            0 <= i < j < with_mask(masks, x).len() ==> byte_len(
                #[trigger] with_mask(masks, x)[i],
            ) >= byte_len(#[trigger] with_mask(masks, x)[j]),
        forall|i: int|
            0 <= i < with_mask(masks, x).len() ==> #[trigger] with_mask(masks, x)[i] == x
                || masks.contains(with_mask(masks, x)[i]),
    decreases masks.len(),
{
    let w = with_mask(masks, x);
    if masks.len() == 0 {
        assert(w[0] == x);
    } else if byte_len(x) <= byte_len(masks.last()) {
        assert(w =~= masks.push(x));
        assert(w[masks.len() as int] == x);
        if masks.contains(v) {
            let i = choose|i: int| 0 <= i < masks.len() && masks[i] == v;
            assert(w[i] == v);
        }
        if w.contains(v) && v != x {
            let i = choose|i: int| 0 <= i < w.len() && w[i] == v;
            assert(masks[i] == v);
        }
        assert forall|i: int| 0 <= i < w.len() implies #[trigger] w[i] == x || masks.contains(
            w[i],
        ) by {
            if i < masks.len() {
                assert(masks[i] == w[i]);
            }
        }
        assert forall|i: int, j: int| 0 <= i < j < w.len() implies byte_len(#[trigger] w[i])
            >= byte_len(#[trigger] w[j]) by {
            let n = masks.len() - 1;
            assert(masks[n] == masks.last());
            if j == masks.len() {
                if i < n {
                    assert(byte_len(masks[i]) >= byte_len(masks[n]));
                }
            } else {
                assert(byte_len(masks[i]) >= byte_len(masks[j]));
            }
        }
    } else {
        let d = masks.drop_last();
        assert forall|i: int, j: int| 0 <= i < j < d.len() implies byte_len(#[trigger] d[i])
            >= byte_len(#[trigger] d[j]) by {
            assert(byte_len(masks[i]) >= byte_len(masks[j]));
        }
        lemma_with_mask_order(d, x, v);
        let u = with_mask(d, x);
        let n = masks.len() - 1;
        assert(w =~= u.push(masks.last()));
        assert forall|i: int| 0 <= i < u.len() implies byte_len(#[trigger] u[i]) >= byte_len(
            masks.last(),
        ) by {
            if u[i] != x {
                let k = choose|k: int| 0 <= k < d.len() && d[k] == u[i];
                assert(byte_len(masks[k]) >= byte_len(masks[n]));
            }
        }
        assert forall|i: int, j: int| 0 <= i < j < w.len() implies byte_len(#[trigger] w[i])
            >= byte_len(#[trigger] w[j]) by {
            if j < u.len() {
                assert(byte_len(u[i]) >= byte_len(u[j]));
            } else {
                assert(w[i] == u[i]);
            }
        }
        assert forall|i: int| 0 <= i < w.len() implies #[trigger] w[i] == x || masks.contains(
            w[i],
        ) by {
            if i < u.len() {
                assert(w[i] == u[i]);
                if u[i] != x {
                    let k = choose|k: int| 0 <= k < d.len() && d[k] == u[i];
                    assert(masks[k] == w[i]);
                }
            } else {
                assert(masks[n] == w[i]);
            }
        }
        if w.contains(v) {
            let i = choose|i: int| 0 <= i < w.len() && w[i] == v;
            assert(w[i] == x || masks.contains(w[i]));
        }
        if masks.contains(v) || v == x {
            if d.contains(v) || v == x {
                let i = choose|i: int| 0 <= i < u.len() && u[i] == v;
                assert(w[i] == v);
            } else {
                let i = choose|i: int| 0 <= i < masks.len() && masks[i] == v;
                if i < d.len() {
                    assert(d[i] == v);
                }
                assert(w[u.len() as int] == v);
            }
        }
    }
}

/// Masking puts three stars for each mask in turn.
pub proof fn law_masks_become_stars(s: Text, masks: Seq<Text>, m: Text)
    ensures
        masked(s, Seq::empty()) == s,
        masked(s, masks.push(m)) == replaced(masked(s, masks), m, seq!['*', '*', '*']),
        masked(m, seq![m]) == seq!['*', '*', '*'] || m.len() == 0,
{
    reveal_strlit("***");
    assert("***"@ =~= seq!['*', '*', '*']);
    assert(masks.push(m).drop_last() =~= masks);
    let one = seq![m];
    assert(one.drop_last() =~= Seq::empty());
    reveal_with_fuel(masked, 2);
    if m.len() > 0 {
        assert(m.subrange(0, m.len() as int) =~= m);
        assert(crate::scan::index_of(m, m) == Some(0int));
        assert(m.take(0) =~= Seq::empty());
        assert(m.skip(m.len() as int) =~= Seq::empty());
        reveal_with_fuel(replaced, 2);
        assert(crate::scan::index_of(Seq::empty(), m) is None);
        assert(m.take(0) + stars() + Seq::<char>::empty() =~= stars());
    }
}

/// A short text of one line is shown as it is; a longer one is cut behind eighty
/// characters.
pub proof fn law_short_text_is_not_clipped(s: Text)
    requires
        !s.contains('\n'),
    ensures
        s.len() <= 80 ==> clipped(s) == s,
        s.len() > 80 ==> clipped(s) == s.take(80) + "…"@,
{
    reveal_strlit("\n");
    let p = "\n"@;
    crate::scan::lemma_index_from(s, p, 0);
    if let Some(i) = crate::scan::index_of(s, p) {
        assert(s.subrange(i, i + 1)[0] == p[0]);
        assert(s[i] == '\n');
    }
    assert(replaced(s, p, "⏎"@) == s);
}

} // verus!
