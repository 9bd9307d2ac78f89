//! The combinations of a job's matrix.

use crate::model::{map_list, Matrix, MatrixView};
use crate::strmap::{
    map_copy, map_entries, map_entry, map_get, map_len, map_new, map_put, put_entries, StrMap,
};
use crate::table::{distinct, law_put_then_lookup, lookup, put, put_all};
use crate::tables::{
    dimension_at, dimension_get, dimension_len, dimension_list, DimensionMap,
};
use crate::text::{opt_eq, texts, Text};
use vstd::prelude::*;

verus! {

/// A combination: what each name stands for.
pub type Combo = Seq<(Text, Text)>;

/// A combination with each value of a dimension in turn.
pub open spec fn with_values(c: Combo, dim: Text, values: Seq<Text>) -> Seq<Combo> {
    values.map_values(|v: Text| put(c, dim, v))
}

/// Combinations with one more dimension.
pub open spec fn extended(combos: Seq<Combo>, dim: Text, values: Seq<Text>) -> Seq<Combo>
    decreases combos.len(),
{
    if combos.len() == 0 {
        Seq::empty()
    } else {
        extended(combos.drop_last(), dim, values) + with_values(combos.last(), dim, values)
    }
}

/// The product of dimensions; the last one varies first.
pub open spec fn product(dims: Seq<(Text, Seq<Text>)>) -> Seq<Combo>
    decreases dims.len(),
{
    if dims.len() == 0 {
        seq![Seq::empty()]
    } else {
        extended(product(dims.drop_last()), dims.last().0, dims.last().1)
    }
}

/// A combination has all the values of another.
pub open spec fn matches_all(c: Combo, want: Combo) -> bool {
    forall|i: int|
        0 <= i < want.len() ==> lookup(c, (#[trigger] want[i]).0) == Some(want[i].1)
}

/// A combination is to be left out.
pub open spec fn is_excluded(c: Combo, exclude: Seq<Combo>) -> bool {
    exists|i: int| 0 <= i < exclude.len() && matches_all(c, #[trigger] exclude[i])
}

/// The combinations that are not left out.
pub open spec fn kept(combos: Seq<Combo>, exclude: Seq<Combo>) -> Seq<Combo>
    decreases combos.len(),
{
    if combos.len() == 0 {
        Seq::empty()
    } else {
        let rest = kept(combos.drop_last(), exclude);
        if is_excluded(combos.last(), exclude) {
            rest
        } else {
            rest.push(combos.last())
        }
    }
}

/// The combinations before anything is added.
pub open spec fn base_combos(m: MatrixView) -> Seq<Combo> {
    if m.dimensions.len() == 0 {
        Seq::empty()
    } else {
        kept(product(m.dimensions), m.exclude)
    }
}

/// An addition agrees with a combination on every dimension that it names.
pub open spec fn agrees(c: Combo, inc: Combo, dims: Seq<(Text, Seq<Text>)>) -> bool {
    forall|i: int|
        0 <= i < inc.len() && lookup(dims, (#[trigger] inc[i]).0) is Some ==> lookup(c, inc[i].0)
            == lookup(inc, inc[i].0)
}

/// An addition agrees with one of the combinations.
pub open spec fn agrees_with_any(
    combos: Seq<Combo>,
    inc: Combo,
    dims: Seq<(Text, Seq<Text>)>,
) -> bool {
    exists|i: int| 0 <= i < combos.len() && agrees(#[trigger] combos[i], inc, dims)
}

/// Combinations with an addition merged into those that it agrees with.
pub open spec fn merged(
    combos: Seq<Combo>,
    inc: Combo,
    dims: Seq<(Text, Seq<Text>)>,
) -> Seq<Combo> {
    combos.map_values(
        |c: Combo|
            if agrees(c, inc, dims) {
                put_all(c, inc)
            } else {
                c
            },
    )
}

/// Combinations with every addition merged, and the additions that agreed with
/// none. An addition is held only against the combinations of the dimensions.
pub open spec fn with_includes(
    combos: Seq<Combo>,
    incs: Seq<Combo>,
    dims: Seq<(Text, Seq<Text>)>,
) -> (Seq<Combo>, Seq<Combo>)
    decreases incs.len(),
{
    if incs.len() == 0 {
        (combos, Seq::empty())
    } else {
        let (c, extra) = with_includes(combos, incs.drop_last(), dims);
        let inc = incs.last();
        (
            merged(c, inc, dims),
            if agrees_with_any(c, inc, dims) {
                extra
            } else {
                extra.push(inc)
            },
        )
    }
}

/// All combinations of a matrix: the product of its dimensions without what is
/// left out, with additions merged, then the additions that agreed with none.
pub open spec fn expanded(m: MatrixView) -> Seq<Combo> {
    let (c, extra) = with_includes(base_combos(m), m.include_entries, m.dimensions);
    c + extra
}

// ---------------------------------------------------------------------------
// Expansion
// ---------------------------------------------------------------------------

/// Combinations with one more dimension.
fn extend_combos(combos: &Vec<StrMap>, dim: &str, values: &Vec<String>) -> (r: Vec<StrMap>)
    ensures
        map_list(r@) == extended(map_list(combos@), dim@, texts(values@)),
{
    let ghost all = map_list(combos@);
    let ghost vals = texts(values@);
    let mut out: Vec<StrMap> = Vec::new();
    let mut i: usize = 0;
    assert(all.take(0) =~= Seq::empty());
    assert(map_list(out@) =~= Seq::empty());
    while i < combos.len()
        invariant
            i <= combos@.len(),
            all == map_list(combos@),
            vals == texts(values@),
            map_list(out@) == extended(all.take(i as int), dim@, vals),
        decreases combos@.len() - i,
    {
        let ghost before = map_list(out@);
        let ghost c = all[i as int];
        assert(all.take(i + 1).drop_last() =~= all.take(i as int));
        assert(all.take(i + 1).last() == c);
        let ghost row = with_values(c, dim@, vals);
        let mut j: usize = 0;
        assert(before + row.take(0) =~= before);
        while j < values.len()
            invariant
                i < combos@.len(),
                j <= values@.len(),
                all == map_list(combos@),
                vals == texts(values@),
                c == all[i as int],
                row == with_values(c, dim@, vals),
                map_list(out@) == before + row.take(j as int),
            decreases values@.len() - j,
        {
            let mut m = map_copy(&combos[i]);
            assert(map_entries(m) == c);
            map_put(&mut m, dim.to_owned(), values[j].clone());
            assert(row[j as int] == map_entries(m));
            let ghost done = map_list(out@);
            let ghost mv = map_entries(m);
            out.push(m);
            assert(map_list(out@) =~= done.push(mv));
            assert(map_list(out@) =~= before + row.take(j + 1));
            j += 1;
        }
        assert(row.take(j as int) =~= row);
        i += 1;
    }
    assert(all.take(i as int) =~= all);
    out
}

/// Whether a combination has all the values of another.
fn has_all(c: &StrMap, want: &StrMap) -> (r: bool)
    ensures
        r == matches_all(map_entries(*c), map_entries(*want)),
{
    let ghost w = map_entries(*want);
    let n = map_len(want);
    let mut i: usize = 0;
    while i < n
        invariant
            i <= n,
            n == w.len(),
            w == map_entries(*want),
            forall|k: int|
                0 <= k < i ==> lookup(map_entries(*c), (#[trigger] w[k]).0) == Some(w[k].1),
        decreases n - i,
    {
        let (k, v) = map_entry(want, i);
        assert(w[i as int] == (k@, v@));
        if !opt_eq(&map_get(c, k.as_str()), &Some(v)) {
            return false;
        }
        i += 1;
    }
    true
}

/// Whether a combination is to be left out.
fn excluded(c: &StrMap, exclude: &Vec<StrMap>) -> (r: bool)
    ensures
        r == is_excluded(map_entries(*c), map_list(exclude@)),
{
    let ghost ex = map_list(exclude@);
    let mut i: usize = 0;
    while i < exclude.len()
        invariant
            i <= exclude@.len(),
            ex == map_list(exclude@),
            forall|k: int| 0 <= k < i ==> !matches_all(map_entries(*c), #[trigger] ex[k]),
        decreases exclude@.len() - i,
    {
        assert(ex[i as int] == map_entries(exclude@[i as int]));
        if has_all(c, &exclude[i]) {
            return true;
        }
        i += 1;
    }
    false
}

/// Whether an addition agrees with a combination on every dimension it names.
fn addition_agrees(c: &StrMap, inc: &StrMap, dims: &DimensionMap) -> (r: bool)
    ensures
        r == agrees(map_entries(*c), map_entries(*inc), dimension_list(*dims)),
{
    let ghost w = map_entries(*inc);
    let ghost d = dimension_list(*dims);
    let n = map_len(inc);
    let mut i: usize = 0;
    while i < n
        invariant
            i <= n,
            n == w.len(),
            w == map_entries(*inc),
            d == dimension_list(*dims),
            forall|k: int|
                0 <= k < i && lookup(d, (#[trigger] w[k]).0) is Some ==> lookup(
                    map_entries(*c),
                    w[k].0,
                ) == lookup(w, w[k].0),
        decreases n - i,
    {
        let (k, _v) = map_entry(inc, i);
        assert(w[i as int].0 == k@);
        if dimension_get(dims, k.as_str()).is_some() {
            if !opt_eq(&map_get(c, k.as_str()), &map_get(inc, k.as_str())) {
                return false;
            }
        }
        i += 1;
    }
    true
}

/// Expand a `strategy.matrix` into concrete combinations.
///
/// An addition merges into the combinations whose dimension values it matches, and
/// becomes a combination of its own where it matches none; it is never held
/// against what an earlier addition became.
pub fn expand_matrix(m: &Matrix) -> (r: Vec<StrMap>)
    ensures
        map_list(r@) == expanded(m@),
{
    let ghost mv = m@;
    let ghost dims = mv.dimensions;
    let mut combos: Vec<StrMap> = Vec::new();
    combos.push(map_new());
    assert(map_list(combos@) =~= product(dims.take(0)));
    let mut i: usize = 0;
    let total = dimension_len(&m.dimensions);
    while i < total
        invariant
            i <= total,
            total == dims.len(),
            mv == m@,
            dims == mv.dimensions,
            map_list(combos@) == product(dims.take(i as int)),
        decreases total - i,
    {
        assert(dims.take(i + 1).drop_last() =~= dims.take(i as int));
        let (k, values) = dimension_at(&m.dimensions, i);
        assert(dims.take(i + 1).last() == (k@, texts(values@)));
        combos = extend_combos(&combos, k.as_str(), values);
        i += 1;
    }
    assert(dims.take(i as int) =~= dims);
    let mut base: Vec<StrMap> = Vec::new();
    if total > 0 {
        let ghost all = map_list(combos@);
        let mut j: usize = 0;
        assert(all.take(0) =~= Seq::empty());
        assert(map_list(base@) =~= Seq::empty());
        while j < combos.len()
            invariant
                j <= combos@.len(),
                all == map_list(combos@),
                mv == m@,
                map_list(base@) == kept(all.take(j as int), mv.exclude),
            decreases combos@.len() - j,
        {
            assert(all.take(j + 1).drop_last() =~= all.take(j as int));
            assert(all.take(j + 1).last() == map_entries(combos@[j as int]));
            if !excluded(&combos[j], &m.exclude) {
                let c = map_copy(&combos[j]);
                let ghost done = map_list(base@);
                let ghost cv = map_entries(c);
                base.push(c);
                assert(map_list(base@) =~= done.push(cv));
            }
            j += 1;
        }
        assert(all.take(j as int) =~= all);
    } else {
        assert(map_list(base@) =~= Seq::empty());
    }
    assert(map_list(base@) == base_combos(mv));
    let ghost incs = mv.include_entries;
    let ghost start = map_list(base@);
    let mut extra: Vec<StrMap> = Vec::new();
    let mut k: usize = 0;
    assert(incs.take(0) =~= Seq::empty());
    assert(map_list(extra@) =~= Seq::empty());
    while k < m.include_entries.len()
        invariant
            k <= m.include_entries@.len(),
            mv == m@,
            dims == mv.dimensions,
            incs == mv.include_entries,
            (map_list(base@), map_list(extra@)) == with_includes(
                start,
                incs.take(k as int),
                dims,
            ),
        decreases m.include_entries@.len() - k,
    {
        let ghost before = map_list(base@);
        let ghost inc = incs[k as int];
        assert(incs.take(k + 1).drop_last() =~= incs.take(k as int));
        assert(incs.take(k + 1).last() == inc);
        assert(inc == map_entries(m.include_entries@[k as int]));
        let mut any = false;
        let mut next: Vec<StrMap> = Vec::new();
        let mut j: usize = 0;
        while j < base.len()
            invariant
                k < m.include_entries@.len(),
                j <= base@.len(),
                next@.len() == j,
                before == map_list(base@),
                dims == m@.dimensions,
                inc == map_entries(m.include_entries@[k as int]),
                forall|x: int|
                    0 <= x < j ==> map_entries(#[trigger] next@[x]) == merged(before, inc, dims)[x],
                any == (exists|x: int| 0 <= x < j && agrees(#[trigger] before[x], inc, dims)),
            decreases base@.len() - j,
        {
            assert(before[j as int] == map_entries(base@[j as int]));
            let mut c = map_copy(&base[j]);
            if addition_agrees(&c, &m.include_entries[k], &m.dimensions) {
                put_entries(&mut c, &m.include_entries[k]);
                any = true;
                assert(agrees(before[j as int], inc, dims));
            }
            next.push(c);
            j += 1;
        }
        base = next;
        assert(map_list(base@) =~= merged(before, inc, dims));
        if !any {
            let e = map_copy(&m.include_entries[k]);
            let ghost done = map_list(extra@);
            let ghost ev = map_entries(e);
            extra.push(e);
            assert(map_list(extra@) =~= done.push(ev));
        }
        k += 1;
    }
    assert(incs.take(k as int) =~= incs);
    let ghost b = map_list(base@);
    let ghost x = map_list(extra@);
    base.append(&mut extra);
    assert(map_list(base@) =~= b + x);
    base
}

// ---------------------------------------------------------------------------
// Laws
// ---------------------------------------------------------------------------

/// How many combinations dimensions have.
pub open spec fn product_size(dims: Seq<(Text, Seq<Text>)>) -> nat
    decreases dims.len(),
{
    if dims.len() == 0 {
        1
    } else {
        product_size(dims.drop_last()) * dims.last().1.len()
    }
}

/// One more dimension multiplies the number of combinations.
proof fn lemma_extended_size(combos: Seq<Combo>, dim: Text, values: Seq<Text>)
    ensures
        extended(combos, dim, values).len() == combos.len() * values.len(),
    decreases combos.len(),
{
    if combos.len() > 0 {
        lemma_extended_size(combos.drop_last(), dim, values);
        let a = combos.len() - 1;
        let b = values.len() as int;
        assert(a * b + b == (a + 1) * b) by (nonlinear_arith);
    } else {
        assert(0 * values.len() == 0) by (nonlinear_arith);
    }
}

/// The product of dimensions has as many combinations as the numbers of their
/// values multiplied.
pub proof fn law_product_size(dims: Seq<(Text, Seq<Text>)>)
    ensures
        product(dims).len() == product_size(dims),
    decreases dims.len(),
{
    if dims.len() > 0 {
        law_product_size(dims.drop_last());
        lemma_extended_size(product(dims.drop_last()), dims.last().0, dims.last().1);
    }
}

/// What a combination with one more dimension is.
proof fn lemma_extended_member(combos: Seq<Combo>, dim: Text, values: Seq<Text>, i: int) -> (r: (
    int,
    int,
))
    requires
        0 <= i < extended(combos, dim, values).len(),
    ensures
        0 <= r.0 < combos.len(),
        0 <= r.1 < values.len(),
        extended(combos, dim, values)[i] == put(combos[r.0], dim, values[r.1]),
    decreases combos.len(),
{
    let d = combos.drop_last();
    let head = extended(d, dim, values);
    if i < head.len() {
        let r = lemma_extended_member(d, dim, values, i);
        assert(d[r.0] == combos[r.0]);
        r
    } else {
        (combos.len() - 1, i - head.len())
    }
}

/// Every combination of the product gives each dimension one of its values.
pub proof fn law_combinations_take_values(dims: Seq<(Text, Seq<Text>)>, i: int, k: int)
    requires
        distinct(dims),
        0 <= i < product(dims).len(),
        0 <= k < dims.len(),
    ensures
        exists|j: int|
            0 <= j < dims[k].1.len() && lookup(product(dims)[i], dims[k].0) == Some(
                #[trigger] dims[k].1[j],
            ),
    decreases dims.len(),
{
    let d = dims.drop_last();
    let last = dims.last();
    assert(distinct(d)) by {
        assert forall|a: int, b: int| 0 <= a < b < d.len() implies (#[trigger] d[a]).0 != (
        #[trigger] d[b]).0 by {
            assert(dims[a].0 != dims[b].0);
        }
    }
    let r = lemma_extended_member(product(d), last.0, last.1, i);
    let c = product(d)[r.0];
    law_put_then_lookup(c, last.0, last.1[r.1], dims[k].0);
    if k == dims.len() - 1 {
        assert(dims[k].1[r.1] == last.1[r.1]);
    } else {
        assert(dims[k].0 != dims[dims.len() - 1].0);
        law_combinations_take_values(d, r.0, k);
        assert(d[k] == dims[k]);
    }
}

/// A matrix without dimensions is its additions, each by itself.
pub proof fn law_additions_alone_stand(m: MatrixView)
    requires
        m.dimensions.len() == 0,
    ensures
        expanded(m) == m.include_entries,
{
    lemma_additions_alone(m.include_entries, m.dimensions);
    assert(Seq::<Combo>::empty() + m.include_entries =~= m.include_entries);
}

/// Additions to nothing stand by themselves.
proof fn lemma_additions_alone(incs: Seq<Combo>, dims: Seq<(Text, Seq<Text>)>)
    ensures
        with_includes(Seq::empty(), incs, dims) == (Seq::<Combo>::empty(), incs),
    decreases incs.len(),
{
    if incs.len() > 0 {
        lemma_additions_alone(incs.drop_last(), dims);
        assert(merged(Seq::empty(), incs.last(), dims) =~= Seq::<Combo>::empty());
        assert(incs.drop_last().push(incs.last()) =~= incs);
    } else {
        assert(incs =~= Seq::empty());
    }
}

/// What is left out is not among the combinations of the dimensions.
pub proof fn law_excluded_combinations_are_gone(m: MatrixView, i: int)
    requires
        0 <= i < base_combos(m).len(),
    ensures
        !is_excluded(base_combos(m)[i], m.exclude),
{
    lemma_kept(product(m.dimensions), m.exclude, i);
}

/// What is kept is not to be left out.
proof fn lemma_kept(combos: Seq<Combo>, exclude: Seq<Combo>, i: int)
    requires
        0 <= i < kept(combos, exclude).len(),
    ensures
        !is_excluded(kept(combos, exclude)[i], exclude),
    decreases combos.len(),
{
    let d = combos.drop_last();
    if i < kept(d, exclude).len() {
        lemma_kept(d, exclude, i);
    }
}

/// The value of a key after pairs with distinct keys have been set.
proof fn lemma_put_all_lookup(m: Combo, add: Combo, k: Text)
    requires
        distinct(add),
    ensures
        lookup(put_all(m, add), k) == (match lookup(add, k) {
            Some(v) => Some(v),
            None => lookup(m, k),
        }),
    decreases add.len(),
{
    if add.len() > 0 {
        let d = add.drop_last();
        let e = add.last();
        assert forall|i: int, j: int| 0 <= i < j < d.len() implies (#[trigger] d[i]).0 != (
        #[trigger] d[j]).0 by {
            assert(add[i].0 != add[j].0);
        }
        lemma_put_all_lookup(m, d, k);
        law_put_then_lookup(put_all(m, d), e.0, e.1, k);
        lemma_lookup_last(add, k);
    }
}

/// The value of a key among distinct ones, by the last of them.
proof fn lemma_lookup_last(add: Combo, k: Text)
    requires
        distinct(add),
        add.len() > 0,
    ensures
        lookup(add, k) == (if add.last().0 == k {
            Some(add.last().1)
        } else {
            lookup(add.drop_last(), k)
        }),
    decreases add.len(),
{
    if add.len() == 1 {
        assert(add.drop_last() =~= Seq::empty());
        assert(add.skip(1) =~= Seq::empty());
    } else {
        let t = add.skip(1);
        assert forall|i: int, j: int| 0 <= i < j < t.len() implies (#[trigger] t[i]).0 != (
        #[trigger] t[j]).0 by {
            assert(add[i + 1].0 != add[j + 1].0);
        }
        lemma_lookup_last(t, k);
        assert(t.last() == add.last());
        assert(t.drop_last() =~= add.drop_last().skip(1));
        assert(add[0].0 != add[add.len() - 1].0);
    }
}

/// Where a key stands among pairs.
proof fn lemma_lookup_at(inc: Combo, k: Text)
    requires
        lookup(inc, k) is Some,
    ensures
        exists|i: int| 0 <= i < inc.len() && (#[trigger] inc[i]).0 == k,
    decreases inc.len(),
{
    if inc[0].0 != k {
        lemma_lookup_at(inc.skip(1), k);
        let i = choose|i: int| 0 <= i < inc.skip(1).len() && (#[trigger] inc.skip(1)[i]).0 == k;
        assert(inc[i + 1].0 == k);
    }
}

/// An addition that is merged leaves the values of the dimensions as they were.
pub proof fn law_additions_keep_dimensions(
    combos: Seq<Combo>,
    incs: Seq<Combo>,
    dims: Seq<(Text, Seq<Text>)>,
    i: int,
    d: Text,
)
    requires
        0 <= i < combos.len(),
        lookup(dims, d) is Some,
        forall|k: int| 0 <= k < incs.len() ==> distinct(#[trigger] incs[k]),
    ensures
        with_includes(combos, incs, dims).0.len() == combos.len(),
        lookup(with_includes(combos, incs, dims).0[i], d) == lookup(combos[i], d),
    decreases incs.len(),
{
    if incs.len() > 0 {
        let rest = incs.drop_last();
        assert forall|k: int| 0 <= k < rest.len() implies distinct(#[trigger] rest[k]) by {
            assert(distinct(incs[k]));
        }
        law_additions_keep_dimensions(combos, rest, dims, i, d);
        let c = with_includes(combos, rest, dims).0[i];
        let inc = incs.last();
        assert(distinct(incs[incs.len() - 1]));
        if agrees(c, inc, dims) {
            lemma_put_all_lookup(c, inc, d);
            if lookup(inc, d) is Some {
                lemma_lookup_at(inc, d);
                let k = choose|k: int| 0 <= k < inc.len() && (#[trigger] inc[k]).0 == d;
                assert(lookup(c, inc[k].0) == lookup(inc, inc[k].0));
            }
        }
    }
}

/// An addition that agrees with no combination of the dimensions stands behind
/// them as it is; one that agrees with some adds none.
pub proof fn law_unmatched_additions_stand_alone(
    combos: Seq<Combo>,
    incs: Seq<Combo>,
    inc: Combo,
    dims: Seq<(Text, Seq<Text>)>,
)
    ensures
        !agrees_with_any(with_includes(combos, incs, dims).0, inc, dims) ==> with_includes(
            combos,
            incs.push(inc),
            dims,
        ).1 == with_includes(combos, incs, dims).1.push(inc),
        agrees_with_any(with_includes(combos, incs, dims).0, inc, dims) ==> with_includes(
            combos,
            incs.push(inc),
            dims,
        ).1 == with_includes(combos, incs, dims).1,
{
    assert(incs.push(inc).drop_last() =~= incs);
}

// ---------------------------------------------------------------------------
// The combinations of a matrix, one by one
// ---------------------------------------------------------------------------

/// Whether a combination differs from an entry in one of the entry's own keys.
pub open spec fn departs(c: Combo, entry: Combo) -> bool {
    exists|j: int| 0 <= j < entry.len() && lookup(c, (#[trigger] entry[j]).0) != Some(entry[j].1)
}

/// Whether a combination departs from every one of some entries.
pub open spec fn departs_from_all(c: Combo, entries: Seq<Combo>) -> bool {
    forall|x: int| 0 <= x < entries.len() ==> departs(c, #[trigger] entries[x])
}

/// Of the product of the dimensions the combinations stay, in their order, that
/// differ from each entry to leave out in some key of that entry; so an entry
/// that names a few of the dimensions removes all that agree with it there.
pub proof fn law_exclusions_remove_what_agrees(m: MatrixView)
    requires
        m.dimensions.len() > 0,
    ensures
        base_combos(m) == product(m.dimensions).filter(
            |c: Combo| departs_from_all(c, m.exclude),
        ),
        forall|c: Combo| #[trigger]
            base_combos(m).contains(c) <==> product(m.dimensions).contains(c) && departs_from_all(
                c,
                m.exclude,
            ),
{
    lemma_kept_filter(product(m.dimensions), m.exclude);
    let p = product(m.dimensions);
    let f = |c: Combo| departs_from_all(c, m.exclude);
    assert forall|c: Combo| #[trigger] base_combos(m).contains(c) <==> p.contains(c)
        && departs_from_all(c, m.exclude) by {
        lemma_filter_holds(p, f, c);
    }
}

proof fn lemma_filter_holds(s: Seq<Combo>, f: spec_fn(Combo) -> bool, c: Combo)
    ensures
        s.filter(f).contains(c) <==> s.contains(c) && f(c),
    decreases s.len(),
{
    reveal(Seq::filter);
    if s.len() > 0 {
        let d = s.drop_last();
        lemma_filter_holds(d, f, c);
        assert(s =~= d.push(s.last()));
        if d.filter(f).contains(c) {
            let i = choose|i: int| 0 <= i < d.filter(f).len() && d.filter(f)[i] == c;
            assert(s.filter(f)[i] == c);
        }
        if s.contains(c) && f(c) {
            let i = choose|i: int| 0 <= i < s.len() && s[i] == c;
            if i < d.len() {
                assert(d[i] == c);
            } else {
                assert(s.filter(f).last() == c);
            }
        }
        if s.filter(f).contains(c) {
            let i = choose|i: int| 0 <= i < s.filter(f).len() && s.filter(f)[i] == c;
            if i < d.filter(f).len() {
                assert(d.filter(f)[i] == c);
                let k = choose|k: int| 0 <= k < d.len() && d[k] == c;
                assert(s[k] == c);
            } else {
                assert(s[s.len() - 1] == c);
            }
        }
    }
}

proof fn lemma_excluded(c: Combo, exclude: Seq<Combo>)
    ensures
        is_excluded(c, exclude) <==> !departs_from_all(c, exclude),
{
    if is_excluded(c, exclude) {
        let i = choose|i: int| 0 <= i < exclude.len() && matches_all(c, #[trigger] exclude[i]);
        assert(!departs(c, exclude[i]));
    }
    if !departs_from_all(c, exclude) {
        let x = choose|x: int| 0 <= x < exclude.len() && !departs(c, #[trigger] exclude[x]);
        assert(matches_all(c, exclude[x]));
    }
}

proof fn lemma_kept_filter(combos: Seq<Combo>, exclude: Seq<Combo>)
    ensures
        kept(combos, exclude) == combos.filter(|c: Combo| departs_from_all(c, exclude)),
    decreases combos.len(),
{
    reveal(Seq::filter);
    if combos.len() > 0 {
        lemma_kept_filter(combos.drop_last(), exclude);
        lemma_excluded(combos.last(), exclude);
    }
}

/// Where the combination of certain values stands in a product: the last
/// dimension turns fastest.
pub open spec fn place(dims: Seq<(Text, Seq<Text>)>, picks: Seq<int>) -> int
    decreases dims.len(),
{
    if dims.len() == 0 {
        0
    } else {
        place(dims.drop_last(), picks.drop_last()) * dims.last().1.len() + picks.last()
    }
}

/// Whether one value of each dimension is picked.
pub open spec fn picks_values(dims: Seq<(Text, Seq<Text>)>, picks: Seq<int>) -> bool {
    &&& picks.len() == dims.len()
    &&& forall|k: int| 0 <= k < dims.len() ==> 0 <= #[trigger] picks[k] < dims[k].1.len()
}

/// Every choice of one value for each dimension is a combination of the product,
/// which holds those values and nothing else, at the place of the choice.
pub proof fn law_product_has_every_choice(dims: Seq<(Text, Seq<Text>)>, picks: Seq<int>)
    requires
        distinct(dims),
        picks_values(dims, picks),
    ensures
        0 <= place(dims, picks) < product(dims).len(),
        product(dims)[place(dims, picks)].len() == dims.len(),
        forall|k: int|
            0 <= k < dims.len() ==> (#[trigger] product(dims)[place(dims, picks)][k]) == (
                dims[k].0,
                dims[k].1[picks[k]],
            ),
    decreases dims.len(),
{
    if dims.len() > 0 {
        let d = dims.drop_last();
        let q = picks.drop_last();
        let last = dims.last();
        assert(distinct(d)) by {
            assert forall|a: int, b: int| 0 <= a < b < d.len() implies (#[trigger] d[a]).0 != (
            #[trigger] d[b]).0 by {
                assert(dims[a].0 != dims[b].0);
            }
        }
        assert forall|k: int| 0 <= k < d.len() implies 0 <= #[trigger] q[k] < d[k].1.len() by {
            assert(0 <= picks[k] < dims[k].1.len());
        }
        law_product_has_every_choice(d, q);
        let at = place(d, q);
        assert(0 <= picks[dims.len() - 1] < dims[dims.len() - 1].1.len());
        lemma_extended_at(product(d), last.0, last.1, at, picks.last());
        let c = product(d)[at];
        assert forall|k: int| 0 <= k < c.len() implies (#[trigger] c[k]).0 != last.0 by {
            assert(c[k] == (d[k].0, d[k].1[q[k]]));
            assert(dims[k].0 != dims[dims.len() - 1].0);
        }
        lemma_put_new(c, last.0, last.1[picks.last()]);
        let e = product(dims)[place(dims, picks)];
        assert forall|k: int| 0 <= k < dims.len() implies (#[trigger] e[k]) == (
            dims[k].0,
            dims[k].1[picks[k]],
        ) by {
            if k < d.len() {
                assert(c[k] == (d[k].0, d[k].1[q[k]]));
            }
        }
    }
}

proof fn lemma_put_new(c: Combo, k: Text, v: Text)
    requires
        forall|i: int| 0 <= i < c.len() ==> (#[trigger] c[i]).0 != k,
    ensures
        put(c, k, v) == c.push((k, v)),
    decreases c.len(),
{
    if c.len() > 0 {
        assert(c[0].0 != k);
        assert forall|i: int| 0 <= i < c.skip(1).len() implies (#[trigger] c.skip(1)[i]).0 != k by {
            assert(c[i + 1].0 != k);
        }
        lemma_put_new(c.skip(1), k, v);
        assert(seq![c[0]] + c.skip(1).push((k, v)) =~= c.push((k, v)));
    } else {
        assert(seq![(k, v)] =~= c.push((k, v)));
    }
}

proof fn lemma_extended_at(combos: Seq<Combo>, dim: Text, values: Seq<Text>, i: int, j: int)
    requires
        0 <= i < combos.len(),
        0 <= j < values.len(),
    ensures
        0 <= i * values.len() + j < extended(combos, dim, values).len(),
        extended(combos, dim, values)[i * values.len() + j] == put(combos[i], dim, values[j]),
    decreases combos.len(),
{
    let d = combos.drop_last();
    let n = values.len() as int;
    lemma_extended_size(d, dim, values);
    lemma_extended_size(combos, dim, values);
    if i < d.len() {
        lemma_extended_at(d, dim, values, i, j);
        assert(d.len() * n <= combos.len() * n) by (nonlinear_arith)
            requires
                d.len() <= combos.len(),
                n >= 0,
        ;
    } else {
        assert(i * n + j < (i + 1) * n) by (nonlinear_arith)
            requires
                j < n,
        ;
        assert(i * n >= 0) by (nonlinear_arith)
            requires
                i >= 0,
                n >= 0,
        ;
        assert(i == d.len());
        assert(d.len() * values.len() == i * n);
    }
}

/// Whether a combination and an entry have the same value in every dimension that
/// the entry names.
pub open spec fn accords(c: Combo, entry: Combo, dims: Seq<(Text, Seq<Text>)>) -> bool {
    forall|d: Text|
        lookup(dims, d) is Some && (#[trigger] lookup(entry, d)) is Some ==> lookup(c, d)
            == lookup(entry, d)
}

proof fn lemma_agrees(c: Combo, entry: Combo, dims: Seq<(Text, Seq<Text>)>)
    ensures
        agrees(c, entry, dims) <==> accords(c, entry, dims),
{
    if agrees(c, entry, dims) {
        assert forall|d: Text|
            lookup(dims, d) is Some && (#[trigger] lookup(entry, d)) is Some implies lookup(c, d)
            == lookup(entry, d) by {
            lemma_lookup_at(entry, d);
            let i = choose|i: int| 0 <= i < entry.len() && (#[trigger] entry[i]).0 == d;
            assert(lookup(c, entry[i].0) == lookup(entry, entry[i].0));
        }
    }
    if accords(c, entry, dims) {
        assert forall|i: int|
            0 <= i < entry.len() && lookup(dims, (#[trigger] entry[i]).0) is Some implies lookup(
            c,
            entry[i].0,
        ) == lookup(entry, entry[i].0) by {
            lemma_lookup_has(entry, i);
        }
    }
}

proof fn lemma_lookup_has(c: Combo, i: int)
    requires
        0 <= i < c.len(),
    ensures
        lookup(c, c[i].0) is Some,
    decreases i,
{
    if i > 0 && c[0].0 != c[i].0 {
        lemma_lookup_has(c.skip(1), i - 1);
    }
}

/// An entry to add gives its keys to each combination of the dimensions that
/// accords with it, and the last such entry with a key counts; a key that no
/// such entry has is as it was.
pub proof fn law_additions_give_their_keys(m: MatrixView, i: int, k: Text)
    requires
        forall|x: int|
            0 <= x < m.include_entries.len() ==> distinct(#[trigger] m.include_entries[x]),
        0 <= i < base_combos(m).len(),
    ensures
        i < expanded(m).len(),
        forall|x: int|
            0 <= x < m.include_entries.len() && accords(
                base_combos(m)[i],
                #[trigger] m.include_entries[x],
                m.dimensions,
            ) && lookup(m.include_entries[x], k) is Some && (forall|y: int|
                x < y < m.include_entries.len() && accords(
                    base_combos(m)[i],
                    #[trigger] m.include_entries[y],
                    m.dimensions,
                ) ==> lookup(m.include_entries[y], k) is None) ==> lookup(expanded(m)[i], k)
                == lookup(m.include_entries[x], k),
        (forall|x: int|
            0 <= x < m.include_entries.len() && accords(
                base_combos(m)[i],
                #[trigger] m.include_entries[x],
                m.dimensions,
            ) ==> lookup(m.include_entries[x], k) is None) ==> lookup(expanded(m)[i], k) == lookup(
            base_combos(m)[i],
            k,
        ),
        lookup(m.dimensions, k) is Some ==> lookup(expanded(m)[i], k) == lookup(
            base_combos(m)[i],
            k,
        ),
{
    let incs = m.include_entries;
    let base = base_combos(m);
    let dims = m.dimensions;
    lemma_includes_len(base, incs, dims);
    assert forall|x: int|
        0 <= x < incs.len() && accords(base[i], #[trigger] incs[x], dims) && lookup(
            incs[x],
            k,
        ) is Some && (forall|y: int|
            x < y < incs.len() && accords(base[i], #[trigger] incs[y], dims) ==> lookup(
                incs[y],
                k,
            ) is None) implies lookup(expanded(m)[i], k) == lookup(incs[x], k) by {
        lemma_included_key(base, incs, dims, i, x, k);
    }
    if forall|x: int|
        0 <= x < incs.len() && accords(base[i], #[trigger] incs[x], dims) ==> lookup(
            incs[x],
            k,
        ) is None {
        lemma_untouched_key(base, incs, dims, i, k);
    }
    if lookup(dims, k) is Some {
        law_additions_keep_dimensions(base, incs, dims, i, k);
    }
}

proof fn lemma_includes_len(combos: Seq<Combo>, incs: Seq<Combo>, dims: Seq<(Text, Seq<Text>)>)
    ensures
        with_includes(combos, incs, dims).0.len() == combos.len(),
    decreases incs.len(),
{
    if incs.len() > 0 {
        lemma_includes_len(combos, incs.drop_last(), dims);
    }
}

/// What accords with a combination goes by its dimensions, which additions keep.
proof fn lemma_accords_later(
    combos: Seq<Combo>,
    incs: Seq<Combo>,
    dims: Seq<(Text, Seq<Text>)>,
    i: int,
    entry: Combo,
)
    requires
        0 <= i < combos.len(),
        forall|x: int| 0 <= x < incs.len() ==> distinct(#[trigger] incs[x]),
    ensures
        with_includes(combos, incs, dims).0.len() == combos.len(),
        agrees(with_includes(combos, incs, dims).0[i], entry, dims) <==> accords(
            combos[i],
            entry,
            dims,
        ),
{
    lemma_includes_len(combos, incs, dims);
    let c = with_includes(combos, incs, dims).0[i];
    lemma_agrees(c, entry, dims);
    assert forall|d: Text|
        lookup(dims, d) is Some && (#[trigger] lookup(entry, d)) is Some implies lookup(c, d)
        == lookup(combos[i], d) by {
        law_additions_keep_dimensions(combos, incs, dims, i, d);
    }
}

proof fn lemma_included_key(
    combos: Seq<Combo>,
    incs: Seq<Combo>,
    dims: Seq<(Text, Seq<Text>)>,
    i: int,
    x: int,
    k: Text,
)
    requires
        0 <= i < combos.len(),
        forall|z: int| 0 <= z < incs.len() ==> distinct(#[trigger] incs[z]),
        0 <= x < incs.len(),
        accords(combos[i], incs[x], dims),
        lookup(incs[x], k) is Some,
        forall|y: int|
            x < y < incs.len() && accords(combos[i], #[trigger] incs[y], dims) ==> lookup(
                incs[y],
                k,
            ) is None,
    ensures
        with_includes(combos, incs, dims).0.len() == combos.len(),
        lookup(with_includes(combos, incs, dims).0[i], k) == lookup(incs[x], k),
    decreases incs.len(),
{
    let rest = incs.drop_last();
    let inc = incs.last();
    lemma_includes_len(combos, incs, dims);
    assert(distinct(incs[incs.len() - 1]));
    assert forall|z: int| 0 <= z < rest.len() implies distinct(#[trigger] rest[z]) by {
        assert(distinct(incs[z]));
    }
    lemma_accords_later(combos, rest, dims, i, inc);
    let c = with_includes(combos, rest, dims).0[i];
    lemma_put_all_lookup(c, inc, k);
    if x < rest.len() {
        assert forall|y: int|
            x < y < rest.len() && accords(combos[i], #[trigger] rest[y], dims) implies lookup(
            rest[y],
            k,
        ) is None by {
            assert(accords(combos[i], incs[y], dims));
        }
        lemma_included_key(combos, rest, dims, i, x, k);
        if accords(combos[i], inc, dims) {
            assert(accords(combos[i], incs[incs.len() - 1], dims));
        }
    }
}

proof fn lemma_untouched_key(
    combos: Seq<Combo>,
    incs: Seq<Combo>,
    dims: Seq<(Text, Seq<Text>)>,
    i: int,
    k: Text,
)
    requires
        0 <= i < combos.len(),
        forall|z: int| 0 <= z < incs.len() ==> distinct(#[trigger] incs[z]),
        forall|y: int|
            0 <= y < incs.len() && accords(combos[i], #[trigger] incs[y], dims) ==> lookup(
                incs[y],
                k,
            ) is None,
    ensures
        with_includes(combos, incs, dims).0.len() == combos.len(),
        lookup(with_includes(combos, incs, dims).0[i], k) == lookup(combos[i], k),
    decreases incs.len(),
{
    lemma_includes_len(combos, incs, dims);
    if incs.len() > 0 {
        let rest = incs.drop_last();
        let inc = incs.last();
        assert(distinct(incs[incs.len() - 1]));
        assert forall|z: int| 0 <= z < rest.len() implies distinct(#[trigger] rest[z]) by {
            assert(distinct(incs[z]));
        }
        assert forall|y: int|
            0 <= y < rest.len() && accords(combos[i], #[trigger] rest[y], dims) implies lookup(
            rest[y],
            k,
        ) is None by {
            assert(accords(combos[i], incs[y], dims));
        }
        lemma_untouched_key(combos, rest, dims, i, k);
        lemma_accords_later(combos, rest, dims, i, inc);
        lemma_put_all_lookup(with_includes(combos, rest, dims).0[i], inc, k);
        if accords(combos[i], inc, dims) {
            assert(accords(combos[i], incs[incs.len() - 1], dims));
        }
    }
}

/// Whether an entry accords with none of some combinations.
pub open spec fn accords_with_none(
    combos: Seq<Combo>,
    entry: Combo,
    dims: Seq<(Text, Seq<Text>)>,
) -> bool {
    forall|i: int| 0 <= i < combos.len() ==> !accords(#[trigger] combos[i], entry, dims)
}

/// Behind the combinations of the dimensions stand the entries to add that accord
/// with none of them, as they are and in their order.
pub proof fn law_other_additions_stand_behind(m: MatrixView)
    requires
        forall|x: int|
            0 <= x < m.include_entries.len() ==> distinct(#[trigger] m.include_entries[x]),
    ensures
        expanded(m).len() >= base_combos(m).len(),
        expanded(m).skip(base_combos(m).len() as int) == m.include_entries.filter(
            |e: Combo| accords_with_none(base_combos(m), e, m.dimensions),
        ),
{
    let base = base_combos(m);
    lemma_includes_len(base, m.include_entries, m.dimensions);
    lemma_extras(base, m.include_entries, m.dimensions);
    let r = with_includes(base, m.include_entries, m.dimensions);
    assert((r.0 + r.1).skip(base.len() as int) =~= r.1);
}

proof fn lemma_extras(combos: Seq<Combo>, incs: Seq<Combo>, dims: Seq<(Text, Seq<Text>)>)
    requires
        forall|z: int| 0 <= z < incs.len() ==> distinct(#[trigger] incs[z]),
    ensures
        with_includes(combos, incs, dims).1 == incs.filter(
            |e: Combo| accords_with_none(combos, e, dims),
        ),
    decreases incs.len(),
{
    reveal(Seq::filter);
    if incs.len() > 0 {
        let rest = incs.drop_last();
        let inc = incs.last();
        assert forall|z: int| 0 <= z < rest.len() implies distinct(#[trigger] rest[z]) by {
            assert(distinct(incs[z]));
        }
        lemma_extras(combos, rest, dims);
        lemma_includes_len(combos, rest, dims);
        let now = with_includes(combos, rest, dims).0;
        if agrees_with_any(now, inc, dims) {
            let i = choose|i: int| 0 <= i < now.len() && agrees(#[trigger] now[i], inc, dims);
            lemma_accords_later(combos, rest, dims, i, inc);
            assert(accords(combos[i], inc, dims));
        }
        if !accords_with_none(combos, inc, dims) {
            let i = choose|i: int|
                0 <= i < combos.len() && accords(#[trigger] combos[i], inc, dims);
            lemma_accords_later(combos, rest, dims, i, inc);
            assert(agrees(now[i], inc, dims));
        }
    }
}

} // verus!
