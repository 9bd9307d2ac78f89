//! What reading keeps of a file.

use crate::model::{
    ConditionalView, InputView, JobView, RunsView, StepActionView, StepView, WorkflowView,
};
use crate::numtext::decimal;
use crate::parse::{
    action_def_of, combination, combinations, conditional, defaults_of, dimensions, fails_fast,
    input_of, inputs_of, job_of, jobs_of, key_at, listed, mapping_pairs, matrix_of, opt_labels,
    parsed, raw_outputs, runner_labels, runs_of, scalar_list, scalar_pairs, scalar_table,
    scalar_text, scalars_among, spelled, step_of, steps_of, strategy_of, workflow_of, RawAction,
    RawDefaults, RawInput, RawJob, RawRuns, RawStep, RawStrategy, RawWorkflow, Yaml,
};
use crate::scan::is_blank;
use crate::table::{collected, law_distinct_pairs_are_kept, law_last_pair_counts, lookup};
use crate::text::{lowered, Text};
use vstd::prelude::*;

verus! {

/// Whether a field that may be absent was read as it stands.
pub open spec fn read_as(field: Option<String>, got: Option<Text>) -> bool {
    match field {
        Some(s) => got == Some(s@),
        None => got is None,
    }
}

/// An entry of a table of scalars.
pub open spec fn scalar_pair(e: (String, Yaml), place: Text) -> Result<(Text, Text), Text> {
    match scalar_text(e.1) {
        Ok(t) => Ok((e.0@, t)),
        Err(m) => Err(place + " value for `"@ + e.0@ + "`"@ + ": "@ + m),
    }
}

/// An entry of a mapping whose key and value are scalars.
pub open spec fn scalar_both(e: (Yaml, Yaml)) -> Result<(Text, Text), Text> {
    match (scalar_text(e.0), scalar_text(e.1)) {
        (Ok(k), Ok(v)) => Ok((k, v)),
        (Err(m), _) => Err(m),
        (_, Err(m)) => Err(m),
    }
}

/// A job under its id, with an error that names it.
pub open spec fn named_job(e: (String, RawJob)) -> Result<(Text, JobView), Text> {
    match job_of(e.1, e.0@) {
        Ok(j) => Ok((e.0@, j)),
        Err(m) => Err("in job `"@ + e.0@ + "`"@ + ": "@ + m),
    }
}

/// An input under its name, with an error that names it.
pub open spec fn named_input(e: (String, RawInput)) -> Result<(Text, InputView), Text> {
    match input_of(e.1) {
        Ok(j) => Ok((e.0@, j)),
        Err(m) => Err("in input `"@ + e.0@ + "`"@ + ": "@ + m),
    }
}

/// The step at `i` behind `from` others, with an error that gives its number.
pub open spec fn numbered_step(r: RawStep, from: nat, i: int) -> Result<StepView, Text> {
    match step_of(r) {
        Ok(s) => Ok(s),
        Err(m) => Err("in step "@ + decimal((from + i + 1) as nat) + ": "@ + m),
    }
}

// ---------------------------------------------------------------------------
// Lists and tables
// ---------------------------------------------------------------------------

/// A list of scalars is the text of each, in order.
pub proof fn law_lists_of_scalars_are_read(s: Seq<Yaml>)
    requires
        forall|i: int| 0 <= i < s.len() ==> scalar_text(#[trigger] s[i]) is Ok,
    ensures
        scalar_list(s) matches Ok(v) && v.len() == s.len() && forall|i: int|
            0 <= i < s.len() ==> scalar_text(s[i]) == Ok::<Text, Text>(#[trigger] v[i]),
    decreases s.len(),
{
    if s.len() > 0 {
        let t = s.skip(1);
        assert forall|i: int| 0 <= i < t.len() implies scalar_text(#[trigger] t[i]) is Ok by {
            assert(scalar_text(s[i + 1]) is Ok);
        }
        law_lists_of_scalars_are_read(t);
        assert(scalar_text(s[0]) is Ok);
        let w = scalar_list(t)->Ok_0;
        let v = scalar_list(s)->Ok_0;
        assert(v =~= seq![(scalar_text(s[0]))->Ok_0] + w);
        assert forall|i: int| 0 <= i < s.len() implies scalar_text(s[i]) == Ok::<Text, Text>(
            #[trigger] v[i],
        ) by {
            if i > 0 {
                assert(v[i] == w[i - 1]);
                assert(t[i - 1] == s[i]);
            }
        }
    }
}

/// The first value of a list that is no scalar is its error.
pub proof fn law_first_bad_scalar(s: Seq<Yaml>, k: int, e: Text)
    requires
        0 <= k < s.len(),
        scalar_text(s[k]) == Err::<Text, Text>(e),
        forall|i: int| 0 <= i < k ==> scalar_text(#[trigger] s[i]) is Ok,
    ensures
        scalar_list(s) == Err::<Seq<Text>, Text>(e),
    decreases k,
{
    if k > 0 {
        let t = s.skip(1);
        assert forall|i: int| 0 <= i < k - 1 implies scalar_text(#[trigger] t[i]) is Ok by {
            assert(scalar_text(s[i + 1]) is Ok);
        }
        assert(t[k - 1] == s[k]);
        law_first_bad_scalar(t, k - 1, e);
        assert(scalar_text(s[0]) is Ok);
    }
}

/// A table of scalars is the text of each under its key, in order.
pub proof fn law_tables_of_scalars_are_read(s: Seq<(String, Yaml)>, place: Text)
    requires
        forall|i: int| 0 <= i < s.len() ==> scalar_pair(#[trigger] s[i], place) is Ok,
    ensures
        scalar_pairs(s, place) matches Ok(v) && v.len() == s.len() && forall|i: int|
            0 <= i < s.len() ==> scalar_pair(s[i], place) == Ok::<(Text, Text), Text>(#[trigger] v[i]),
    decreases s.len(),
{
    if s.len() > 0 {
        let t = s.skip(1);
        assert forall|i: int| 0 <= i < t.len() implies scalar_pair(#[trigger] t[i], place) is Ok by {
            assert(scalar_pair(s[i + 1], place) is Ok);
        }
        law_tables_of_scalars_are_read(t, place);
        assert(scalar_pair(s[0], place) is Ok);
        let w = scalar_pairs(t, place)->Ok_0;
        let v = scalar_pairs(s, place)->Ok_0;
        assert(v =~= seq![(scalar_pair(s[0], place))->Ok_0] + w);
        assert forall|i: int| 0 <= i < s.len() implies scalar_pair(s[i], place) == Ok::<(Text, Text), Text>(
            #[trigger] v[i],
        ) by {
            if i > 0 {
                assert(v[i] == w[i - 1]);
                assert(t[i - 1] == s[i]);
            }
        }
    }
}

/// The first value of a table that is no scalar is its error, which names the table
/// and the key.
pub proof fn law_first_bad_entry(s: Seq<(String, Yaml)>, place: Text, k: int, e: Text)
    requires
        0 <= k < s.len(),
        scalar_pair(s[k], place) == Err::<(Text, Text), Text>(e),
        forall|i: int| 0 <= i < k ==> scalar_pair(#[trigger] s[i], place) is Ok,
    ensures
        scalar_pairs(s, place) == Err::<Seq<(Text, Text)>, Text>(e),
    decreases k,
{
    if k > 0 {
        let t = s.skip(1);
        assert forall|i: int| 0 <= i < k - 1 implies scalar_pair(#[trigger] t[i], place) is Ok by {
            assert(scalar_pair(s[i + 1], place) is Ok);
        }
        assert(t[k - 1] == s[k]);
        law_first_bad_entry(t, place, k - 1, e);
        assert(scalar_pair(s[0], place) is Ok);
    }
}

/// A list of combinations is each of them, in order.
pub proof fn law_combinations_are_read(s: Seq<Yaml>)
    requires
        forall|i: int| 0 <= i < s.len() ==> combination(#[trigger] s[i]) is Ok,
    ensures
        combinations(s) matches Ok(v) && v.len() == s.len() && forall|i: int|
            0 <= i < s.len() ==> combination(s[i]) == Ok::<Seq<(Text, Text)>, Text>(#[trigger] v[i]),
    decreases s.len(),
{
    if s.len() > 0 {
        let t = s.skip(1);
        assert forall|i: int| 0 <= i < t.len() implies combination(#[trigger] t[i]) is Ok by {
            assert(combination(s[i + 1]) is Ok);
        }
        law_combinations_are_read(t);
        assert(combination(s[0]) is Ok);
        let w = combinations(t)->Ok_0;
        let v = combinations(s)->Ok_0;
        assert(v =~= seq![(combination(s[0]))->Ok_0] + w);
        assert forall|i: int| 0 <= i < s.len() implies combination(s[i]) == Ok::<Seq<(Text, Text)>, Text>(
            #[trigger] v[i],
        ) by {
            if i > 0 {
                assert(v[i] == w[i - 1]);
                assert(t[i - 1] == s[i]);
            }
        }
    }
}

/// The first of the combinations that is none is the error.
pub proof fn law_first_bad_combination(s: Seq<Yaml>, k: int, e: Text)
    requires
        0 <= k < s.len(),
        combination(s[k]) == Err::<Seq<(Text, Text)>, Text>(e),
        forall|i: int| 0 <= i < k ==> combination(#[trigger] s[i]) is Ok,
    ensures
        combinations(s) == Err::<Seq<Seq<(Text, Text)>>, Text>(e),
    decreases k,
{
    if k > 0 {
        let t = s.skip(1);
        assert forall|i: int| 0 <= i < k - 1 implies combination(#[trigger] t[i]) is Ok by {
            assert(combination(s[i + 1]) is Ok);
        }
        assert(t[k - 1] == s[k]);
        law_first_bad_combination(t, k - 1, e);
        assert(combination(s[0]) is Ok);
    }
}

/// A combination has each key and value of the mapping as text, in order.
pub proof fn law_keys_and_values_are_read(s: Seq<(Yaml, Yaml)>)
    requires
        forall|i: int| 0 <= i < s.len() ==> scalar_both(#[trigger] s[i]) is Ok,
    ensures
        mapping_pairs(s) matches Ok(v) && v.len() == s.len() && forall|i: int|
            0 <= i < s.len() ==> scalar_both(s[i]) == Ok::<(Text, Text), Text>(#[trigger] v[i]),
    decreases s.len(),
{
    if s.len() > 0 {
        let t = s.skip(1);
        assert forall|i: int| 0 <= i < t.len() implies scalar_both(#[trigger] t[i]) is Ok by {
            assert(scalar_both(s[i + 1]) is Ok);
        }
        law_keys_and_values_are_read(t);
        assert(scalar_both(s[0]) is Ok);
        let w = mapping_pairs(t)->Ok_0;
        let v = mapping_pairs(s)->Ok_0;
        assert(v =~= seq![(scalar_both(s[0]))->Ok_0] + w);
        assert forall|i: int| 0 <= i < s.len() implies scalar_both(s[i]) == Ok::<(Text, Text), Text>(
            #[trigger] v[i],
        ) by {
            if i > 0 {
                assert(v[i] == w[i - 1]);
                assert(t[i - 1] == s[i]);
            }
        }
    }
}

/// The first key or value that is no scalar is the error of a combination.
pub proof fn law_first_bad_key_or_value(s: Seq<(Yaml, Yaml)>, k: int, e: Text)
    requires
        0 <= k < s.len(),
        scalar_both(s[k]) == Err::<(Text, Text), Text>(e),
        forall|i: int| 0 <= i < k ==> scalar_both(#[trigger] s[i]) is Ok,
    ensures
        mapping_pairs(s) == Err::<Seq<(Text, Text)>, Text>(e),
    decreases k,
{
    if k > 0 {
        let t = s.skip(1);
        assert forall|i: int| 0 <= i < k - 1 implies scalar_both(#[trigger] t[i]) is Ok by {
            assert(scalar_both(s[i + 1]) is Ok);
        }
        assert(t[k - 1] == s[k]);
        law_first_bad_key_or_value(t, k - 1, e);
        assert(scalar_both(s[0]) is Ok);
    }
}

/// Each job of a file becomes one job under its id, in file order.
pub proof fn law_jobs_are_read(s: Seq<(String, RawJob)>)
    requires
        forall|i: int| 0 <= i < s.len() ==> named_job(#[trigger] s[i]) is Ok,
    ensures
        jobs_of(s) matches Ok(v) && v.len() == s.len() && forall|i: int|
            0 <= i < s.len() ==> named_job(s[i]) == Ok::<(Text, JobView), Text>(#[trigger] v[i]),
    decreases s.len(),
{
    if s.len() > 0 {
        let t = s.skip(1);
        assert forall|i: int| 0 <= i < t.len() implies named_job(#[trigger] t[i]) is Ok by {
            assert(named_job(s[i + 1]) is Ok);
        }
        law_jobs_are_read(t);
        assert(named_job(s[0]) is Ok);
        let w = jobs_of(t)->Ok_0;
        let v = jobs_of(s)->Ok_0;
        assert(v =~= seq![(named_job(s[0]))->Ok_0] + w);
        assert forall|i: int| 0 <= i < s.len() implies named_job(s[i]) == Ok::<(Text, JobView), Text>(
            #[trigger] v[i],
        ) by {
            if i > 0 {
                assert(v[i] == w[i - 1]);
                assert(t[i - 1] == s[i]);
            }
        }
    }
}

/// The first job that is wrong is the error of a file, which names the job.
pub proof fn law_first_bad_job(s: Seq<(String, RawJob)>, k: int, e: Text)
    requires
        0 <= k < s.len(),
        named_job(s[k]) == Err::<(Text, JobView), Text>(e),
        forall|i: int| 0 <= i < k ==> named_job(#[trigger] s[i]) is Ok,
    ensures
        jobs_of(s) == Err::<Seq<(Text, JobView)>, Text>(e),
    decreases k,
{
    if k > 0 {
        let t = s.skip(1);
        assert forall|i: int| 0 <= i < k - 1 implies named_job(#[trigger] t[i]) is Ok by {
            assert(named_job(s[i + 1]) is Ok);
        }
        assert(t[k - 1] == s[k]);
        law_first_bad_job(t, k - 1, e);
        assert(named_job(s[0]) is Ok);
    }
}

/// Each input of an action becomes one input under its name, in file order.
pub proof fn law_inputs_are_read(s: Seq<(String, RawInput)>)
    requires
        forall|i: int| 0 <= i < s.len() ==> named_input(#[trigger] s[i]) is Ok,
    ensures
        inputs_of(s) matches Ok(v) && v.len() == s.len() && forall|i: int|
            0 <= i < s.len() ==> named_input(s[i]) == Ok::<(Text, InputView), Text>(#[trigger] v[i]),
    decreases s.len(),
{
    if s.len() > 0 {
        let t = s.skip(1);
        assert forall|i: int| 0 <= i < t.len() implies named_input(#[trigger] t[i]) is Ok by {
            assert(named_input(s[i + 1]) is Ok);
        }
        law_inputs_are_read(t);
        assert(named_input(s[0]) is Ok);
        let w = inputs_of(t)->Ok_0;
        let v = inputs_of(s)->Ok_0;
        assert(v =~= seq![(named_input(s[0]))->Ok_0] + w);
        assert forall|i: int| 0 <= i < s.len() implies named_input(s[i]) == Ok::<(Text, InputView), Text>(
            #[trigger] v[i],
        ) by {
            if i > 0 {
                assert(v[i] == w[i - 1]);
                assert(t[i - 1] == s[i]);
            }
        }
    }
}

/// The first input that is wrong is the error of an action, which names it.
pub proof fn law_first_bad_input(s: Seq<(String, RawInput)>, k: int, e: Text)
    requires
        0 <= k < s.len(),
        named_input(s[k]) == Err::<(Text, InputView), Text>(e),
        forall|i: int| 0 <= i < k ==> named_input(#[trigger] s[i]) is Ok,
    ensures
        inputs_of(s) == Err::<Seq<(Text, InputView)>, Text>(e),
    decreases k,
{
    if k > 0 {
        let t = s.skip(1);
        assert forall|i: int| 0 <= i < k - 1 implies named_input(#[trigger] t[i]) is Ok by {
            assert(named_input(s[i + 1]) is Ok);
        }
        assert(t[k - 1] == s[k]);
        law_first_bad_input(t, k - 1, e);
        assert(named_input(s[0]) is Ok);
    }
}

/// Each step becomes one step, in order.
pub proof fn law_steps_are_read(s: Seq<RawStep>, from: nat)
    requires
        forall|i: int| 0 <= i < s.len() ==> numbered_step(#[trigger] s[i], from, i) is Ok,
    ensures
        steps_of(s, from) matches Ok(v) && v.len() == s.len() && forall|i: int|
            0 <= i < s.len() ==> numbered_step(s[i], from, i) == Ok::<StepView, Text>(#[trigger] v[i]),
    decreases s.len(),
{
    if s.len() > 0 {
        let t = s.skip(1);
        assert forall|i: int| 0 <= i < t.len() implies numbered_step(#[trigger] t[i], from, i + 1) is Ok by {
            assert(numbered_step(s[i + 1], from, i + 1) is Ok);
        }
        law_steps_are_read(t, from + 1);
        assert(numbered_step(s[0], from, 0) is Ok);
        let w = steps_of(t, from + 1)->Ok_0;
        let v = steps_of(s, from)->Ok_0;
        assert(v =~= seq![(numbered_step(s[0], from, 0))->Ok_0] + w);
        assert forall|i: int| 0 <= i < s.len() implies numbered_step(s[i], from, i) == Ok::<StepView, Text>(
            #[trigger] v[i],
        ) by {
            if i > 0 {
                assert(v[i] == w[i - 1]);
                assert(t[i - 1] == s[i]);
            }
        }
    }
}

/// The first step that is wrong is the error, which names it by its number,
/// counted from one.
pub proof fn law_first_bad_step(s: Seq<RawStep>, from: nat, k: int, e: Text)
    requires
        0 <= k < s.len(),
        numbered_step(s[k], from, k) == Err::<StepView, Text>(e),
        forall|i: int| 0 <= i < k ==> numbered_step(#[trigger] s[i], from, i) is Ok,
    ensures
        steps_of(s, from) == Err::<Seq<StepView>, Text>(e),
    decreases k,
{
    if k > 0 {
        let t = s.skip(1);
        assert forall|i: int| 0 <= i < k - 1 implies numbered_step(#[trigger] t[i], from, i + 1) is Ok by {
            assert(numbered_step(s[i + 1], from, i + 1) is Ok);
        }
        assert(t[k - 1] == s[k]);
        law_first_bad_step(t, from + 1, k - 1, e);
        assert(numbered_step(s[0], from, 0) is Ok);
    }
}

/// A scalar is its text: null is empty, a boolean is its word, and a number or
/// string is as it stands. Nothing else is a scalar.
pub proof fn law_scalars_are_text(v: Yaml)
    ensures
        v is Null ==> scalar_text(v) == Ok::<Text, Text>(Seq::empty()),
        v == Yaml::Bool(true) ==> scalar_text(v) == Ok::<Text, Text>("true"@),
        v == Yaml::Bool(false) ==> scalar_text(v) == Ok::<Text, Text>("false"@),
        v matches Yaml::Number(n) ==> scalar_text(v) == Ok::<Text, Text>(n@),
        v matches Yaml::Str(s) ==> scalar_text(v) == Ok::<Text, Text>(s@),
        v is Sequence ==> scalar_text(v) == Err::<Text, Text>(
            "expected a scalar value, found a "@ + "sequence"@,
        ),
        v is Mapping ==> scalar_text(v) == Err::<Text, Text>(
            "expected a scalar value, found a "@ + "mapping"@,
        ),
        v is Tagged ==> scalar_text(v) == Err::<Text, Text>(
            "expected a scalar value, found a "@ + "tagged value"@,
        ),
{
}

/// Under each key a table holds the text of the last value that the file gives
/// for it, and nothing under any other; keys that differ stay in file order.
pub proof fn law_tables_hold_what_the_file_gives(m: Seq<(String, Yaml)>, place: Text)
    requires
        forall|i: int| 0 <= i < m.len() ==> scalar_text((#[trigger] m[i]).1) is Ok,
    ensures
        scalar_table(m, place) is Ok,
        forall|i: int|
            0 <= i < m.len() && (forall|j: int|
                i < j < m.len() ==> (#[trigger] m[j]).0@ != m[i].0@) ==> lookup(
                scalar_table(m, place)->Ok_0,
                (#[trigger] m[i]).0@,
            ) == Some(scalar_text(m[i].1)->Ok_0),
        forall|k: Text|
            (forall|j: int| 0 <= j < m.len() ==> (#[trigger] m[j]).0@ != k) ==> (#[trigger] lookup(
                scalar_table(m, place)->Ok_0,
                k,
            )) is None,
        (forall|i: int, j: int|
            0 <= i < j < m.len() ==> (#[trigger] m[i]).0@ != (#[trigger] m[j]).0@) ==> {
            &&& scalar_table(m, place)->Ok_0.len() == m.len()
            &&& forall|i: int|
                0 <= i < m.len() ==> #[trigger] scalar_table(m, place)->Ok_0[i] == (
                    m[i].0@,
                    scalar_text(m[i].1)->Ok_0,
                )
        },
{
    assert forall|i: int| 0 <= i < m.len() implies scalar_pair(#[trigger] m[i], place) is Ok by {
        assert(scalar_text(m[i].1) is Ok);
    }
    law_tables_of_scalars_are_read(m, place);
    let p = scalar_pairs(m, place)->Ok_0;
    assert forall|i: int| 0 <= i < m.len() implies #[trigger] p[i] == (
        m[i].0@,
        scalar_text(m[i].1)->Ok_0,
    ) by {
        assert(scalar_pair(m[i], place) == Ok::<(Text, Text), Text>(p[i]));
    }
    let t = collected(p);
    assert forall|i: int|
        0 <= i < m.len() && (forall|j: int|
            i < j < m.len() ==> (#[trigger] m[j]).0@ != m[i].0@) implies lookup(
        t,
        (#[trigger] m[i]).0@,
    ) == Some(scalar_text(m[i].1)->Ok_0) by {
        law_last_pair_counts(Seq::empty(), p, m[i].0@);
        assert(p[i].0 == m[i].0@);
        assert forall|j: int| i < j < p.len() implies (#[trigger] p[j]).0 != m[i].0@ by {
            assert(m[j].0@ != m[i].0@);
        }
    }
    assert forall|k: Text|
        (forall|j: int| 0 <= j < m.len() ==> (#[trigger] m[j]).0@ != k) implies (#[trigger] lookup(
        t,
        k,
    )) is None by {
        law_last_pair_counts(Seq::empty(), p, k);
        assert forall|j: int| 0 <= j < p.len() implies (#[trigger] p[j]).0 != k by {
            assert(m[j].0@ != k);
        }
    }
    if forall|i: int, j: int|
        0 <= i < j < m.len() ==> (#[trigger] m[i]).0@ != (#[trigger] m[j]).0@ {
        assert forall|i: int, j: int| 0 <= i < j < p.len() implies (#[trigger] p[i]).0 != (
        #[trigger] p[j]).0 by {
            assert(m[i].0@ != m[j].0@);
        }
        law_distinct_pairs_are_kept(p);
    }
}

/// A table with a value that is no scalar is an error, and no other is.
pub proof fn law_tables_hold_scalars(m: Seq<(String, Yaml)>, place: Text)
    ensures
        scalar_table(m, place) is Ok <==> forall|i: int|
            0 <= i < m.len() ==> scalar_text((#[trigger] m[i]).1) is Ok,
    decreases m.len(),
{
    if m.len() > 0 {
        law_tables_hold_scalars(m.skip(1), place);
        assert forall|i: int| 0 <= i < m.skip(1).len() implies #[trigger] m.skip(1)[i] == m[i
            + 1] by {}
        if forall|i: int| 0 <= i < m.skip(1).len() ==> scalar_text(
            (#[trigger] m.skip(1)[i]).1,
        ) is Ok {
            assert forall|i: int| 1 <= i < m.len() implies scalar_text(
                (#[trigger] m[i]).1,
            ) is Ok by {
                assert(m.skip(1)[i - 1] == m[i]);
            }
        }
    }
}

/// A string-or-list field is nothing where it is absent, one item where it is a
/// string, and the text of each item where it is a list.
pub proof fn law_string_or_list(v: Option<Yaml>)
    ensures
        v is None || v == Some(Yaml::Null) ==> listed(v) == Ok::<Seq<Text>, Text>(Seq::empty()),
        v matches Some(Yaml::Str(s)) ==> listed(v) == Ok::<Seq<Text>, Text>(seq![s@]),
        v matches Some(Yaml::Sequence(s)) ==> {
            (forall|i: int| 0 <= i < s@.len() ==> scalar_text(#[trigger] s@[i]) is Ok) ==> (listed(
                v,
            ) matches Ok(t) && t.len() == s@.len() && forall|i: int|
                0 <= i < s@.len() ==> scalar_text(s@[i]) == Ok::<Text, Text>(#[trigger] t[i]))
        },
        v matches Some(y) ==> (y is Bool || y is Number || y is Mapping || y is Tagged) ==> listed(
            v,
        ) is Err,
{
    if let Some(Yaml::Sequence(s)) = v {
        if forall|i: int| 0 <= i < s@.len() ==> scalar_text(#[trigger] s@[i]) is Ok {
            law_lists_of_scalars_are_read(s@);
        }
    }
}

/// `true` or `false` is itself, what is absent is false, a string goes by its
/// spelling, and nothing else will do.
pub proof fn law_booleans_or_expressions(v: Option<Yaml>)
    ensures
        v is None || v == Some(Yaml::Null) ==> conditional(v) == Ok::<ConditionalView, Text>(
            ConditionalView::Bool(false),
        ),
        v matches Some(Yaml::Bool(b)) ==> conditional(v) == Ok::<ConditionalView, Text>(
            ConditionalView::Bool(b),
        ),
        v matches Some(Yaml::Str(s)) ==> conditional(v) == Ok::<ConditionalView, Text>(
            spelled(s@),
        ),
        v matches Some(y) ==> (y is Number || y is Sequence || y is Mapping || y is Tagged)
            ==> conditional(v) is Err,
{
}

/// A string that spells no boolean is an expression.
pub proof fn law_other_spellings_are_expressions(s: Text)
    ensures
        ![
            "true"@,
            "yes"@,
            "on"@,
            "y"@,
            "false"@,
            "no"@,
            "off"@,
            "n"@,
        ]@.contains(lowered(crate::scan::trimmed(s))) ==> spelled(s) == ConditionalView::Expr(s),
        !crate::scan::holds(s, "${{"@) && lowered(crate::scan::trimmed(s)) == "false"@ ==> spelled(
            s,
        ) == ConditionalView::Bool(false),
{
    let known = ["true"@, "yes"@, "on"@, "y"@, "false"@, "no"@, "off"@, "n"@]@;
    assert(known[0] == "true"@ && known[1] == "yes"@ && known[2] == "on"@ && known[3] == "y"@
        && known[4] == "false"@ && known[5] == "no"@ && known[6] == "off"@ && known[7] == "n"@);
    reveal_strlit("true");
    reveal_strlit("yes");
    reveal_strlit("on");
    reveal_strlit("y");
    reveal_strlit("false");
    assert("true"@[0] == 't' && "yes"@[0] == 'y' && "on"@[0] == 'o' && "y"@[0] == 'y'
        && "false"@[0] == 'f');
}

// ---------------------------------------------------------------------------
// Steps
// ---------------------------------------------------------------------------

/// A step has each field that the file gives it, and none that it does not.
pub proof fn law_steps_keep_their_fields(r: RawStep)
    ensures
        step_of(r) matches Ok(s) ==> {
            &&& read_as(r.id, s.id)
            &&& read_as(r.name, s.name)
            &&& read_as(r.if_cond, s.if_cond)
            &&& read_as(r.working_directory, s.working_directory)
            &&& read_as(r.shell, s.shell)
            &&& scalar_table(r.env@, "step `env`"@) == Ok::<Seq<(Text, Text)>, Text>(s.env)
            &&& conditional(r.continue_on_error) == Ok::<ConditionalView, Text>(
                s.continue_on_error,
            )
            &&& match s.action {
                StepActionView::Run(script) => r.uses is None && read_as(r.run, Some(script)),
                StepActionView::Uses(action, with) => r.run is None && read_as(
                    r.uses,
                    Some(action),
                ) && scalar_table(r.with@, "`with`"@) == Ok::<Seq<(Text, Text)>, Text>(with),
            }
        },
{
}

/// A step is read where it has one of `run` and `uses`, its tables hold scalars,
/// and `continue-on-error` is a boolean or an expression; otherwise it is the
/// error of the first of these that fails.
pub proof fn law_steps_that_are_read(r: RawStep)
    ensures
        step_of(r) is Ok <==> {
            &&& (r.run is Some) != (r.uses is Some)
            &&& r.uses is Some ==> scalar_table(r.with@, "`with`"@) is Ok
            &&& scalar_table(r.env@, "step `env`"@) is Ok
            &&& conditional(r.continue_on_error) is Ok
        },
        r.run is Some && r.uses is Some ==> step_of(r) == Err::<StepView, Text>(
            "has both `run` and `uses`; a step must have exactly one"@,
        ),
        r.run is None && r.uses is None ==> step_of(r) == Err::<StepView, Text>(
            "has neither `run` nor `uses`; a step must have exactly one"@,
        ),
        (r.run is Some) != (r.uses is Some) && (r.uses is Some ==> scalar_table(
            r.with@,
            "`with`"@,
        ) is Ok) ==> (scalar_table(r.env@, "step `env`"@) matches Err(e) ==> step_of(r) == Err::<
            StepView,
            Text,
        >(e)),
        (r.run is Some) != (r.uses is Some) && (r.uses is Some ==> scalar_table(
            r.with@,
            "`with`"@,
        ) is Ok) && scalar_table(r.env@, "step `env`"@) is Ok ==> (conditional(
            r.continue_on_error,
        ) matches Err(e) ==> step_of(r) == Err::<StepView, Text>(
            "invalid `continue-on-error`"@ + ": "@ + e,
        )),
{
}

// ---------------------------------------------------------------------------
// Jobs
// ---------------------------------------------------------------------------

/// Defaults are as they stand.
pub proof fn law_defaults_are_kept(r: RawDefaults)
    ensures
        read_as(r.shell, defaults_of(r).shell),
        read_as(r.working_directory, defaults_of(r).working_directory),
{
}

/// A job has each field that the file gives it, and each of its steps in order.
pub proof fn law_jobs_keep_their_fields(r: RawJob, id: Text)
    ensures
        job_of(r, id) matches Ok(j) ==> {
            &&& j.id == id
            &&& read_as(r.name, j.name)
            &&& read_as(r.if_cond, j.if_cond)
            &&& read_as(r.defaults.shell, j.defaults.shell)
            &&& read_as(r.defaults.working_directory, j.defaults.working_directory)
            &&& j.runs_on == opt_labels(r.runs_on)
            &&& listed(r.needs) == Ok::<Seq<Text>, Text>(j.needs)
            &&& scalar_table(r.env@, "job `env`"@) == Ok::<Seq<(Text, Text)>, Text>(j.env)
            &&& (r.strategy is None <==> j.strategy is None)
            &&& r.strategy matches Some(s) ==> strategy_of(s) == Ok::<_, Text>(j.strategy->Some_0)
            &&& j.steps.len() == r.steps@.len()
            &&& forall|i: int|
                0 <= i < r.steps@.len() ==> step_of(r.steps@[i]) == Ok::<StepView, Text>(
                    #[trigger] j.steps[i],
                )
        },
{
    if let Ok(j) = job_of(r, id) {
        lemma_good_steps(r.steps@, 0);
    }
}

proof fn lemma_good_steps(s: Seq<RawStep>, from: nat)
    ensures
        steps_of(s, from) matches Ok(v) ==> v.len() == s.len() && forall|i: int|
            0 <= i < s.len() ==> step_of(s[i]) == Ok::<StepView, Text>(#[trigger] v[i]),
    decreases s.len(),
{
    if s.len() > 0 {
        if let Ok(v) = steps_of(s, from) {
            let t = s.skip(1);
            lemma_good_steps(t, from + 1);
            let w = steps_of(t, from + 1)->Ok_0;
            assert(v =~= seq![step_of(s[0])->Ok_0] + w);
            assert forall|i: int| 0 <= i < s.len() implies step_of(s[i]) == Ok::<StepView, Text>(
                #[trigger] v[i],
            ) by {
                if i > 0 {
                    assert(v[i] == w[i - 1]);
                    assert(t[i - 1] == s[i]);
                }
            }
        }
    }
}

/// A job is read where its steps, its needs, its environment and its strategy
/// are.
pub proof fn law_jobs_that_are_read(r: RawJob, id: Text)
    ensures
        job_of(r, id) is Ok <==> {
            &&& steps_of(r.steps@, 0) is Ok
            &&& listed(r.needs) is Ok
            &&& scalar_table(r.env@, "job `env`"@) is Ok
            &&& r.strategy matches Some(s) ==> strategy_of(s) is Ok
        },
        steps_of(r.steps@, 0) matches Err(e) ==> job_of(r, id) == Err::<JobView, Text>(e),
        steps_of(r.steps@, 0) is Ok ==> (listed(r.needs) matches Err(e) ==> job_of(r, id) == Err::<
            JobView,
            Text,
        >("invalid `needs`"@ + ": "@ + e)),
{
}

/// Labels of a runner: a string is one, a list gives its scalars in order, and of
/// a mapping `labels` counts, or else `group`.
pub proof fn law_runner_labels(v: Yaml, i: int)
    ensures
        opt_labels(None) == Seq::<Text>::empty(),
        opt_labels(Some(v)) == runner_labels(v),
        v matches Yaml::Str(s) ==> runner_labels(v) == seq![s@],
        v matches Yaml::Sequence(s) ==> (forall|x: int|
            0 <= x < s@.len() ==> scalar_text(#[trigger] s@[x]) is Ok) ==> runner_labels(v).len()
            == s@.len() && forall|x: int|
            0 <= x < s@.len() ==> scalar_text(s@[x]) == Ok::<Text, Text>(
                #[trigger] runner_labels(v)[x],
            ),
        v matches Yaml::Mapping(m) ==> 0 <= i < m@.len() && key_at(m@, "labels"@) == Some(i)
            ==> runner_labels(v) == runner_labels(m@[i].1),
        v matches Yaml::Mapping(m) ==> 0 <= i < m@.len() && key_at(m@, "labels"@) is None
            && key_at(m@, "group"@) == Some(i) ==> (scalar_text(m@[i].1) matches Ok(t)
            ==> runner_labels(v) == seq![t]),
        v matches Yaml::Mapping(m) ==> key_at(m@, "labels"@) is None && key_at(m@, "group"@) is None
            ==> runner_labels(v) == Seq::<Text>::empty(),
{
    reveal_with_fuel(runner_labels, 2);
    if let Yaml::Sequence(s) = v {
        if forall|x: int| 0 <= x < s@.len() ==> scalar_text(#[trigger] s@[x]) is Ok {
            lemma_scalars_among(s@);
        }
    }
}

proof fn lemma_scalars_among(s: Seq<Yaml>)
    requires
        forall|x: int| 0 <= x < s.len() ==> scalar_text(#[trigger] s[x]) is Ok,
    ensures
        scalars_among(s).len() == s.len(),
        forall|x: int|
            0 <= x < s.len() ==> scalar_text(s[x]) == Ok::<Text, Text>(
                #[trigger] scalars_among(s)[x],
            ),
    decreases s.len(),
{
    if s.len() > 0 {
        let d = s.drop_last();
        assert forall|x: int| 0 <= x < d.len() implies scalar_text(#[trigger] d[x]) is Ok by {
            assert(scalar_text(s[x]) is Ok);
        }
        lemma_scalars_among(d);
        assert(scalar_text(s[s.len() - 1]) is Ok);
        assert forall|x: int| 0 <= x < s.len() implies scalar_text(s[x]) == Ok::<Text, Text>(
            #[trigger] scalars_among(s)[x],
        ) by {
            if x < d.len() {
                assert(scalars_among(s)[x] == scalars_among(d)[x]);
                assert(d[x] == s[x]);
            }
        }
    }
}

/// A key is found at the first place where it stands as a string.
pub proof fn law_keys_are_found(m: Seq<(Yaml, Yaml)>, k: Text)
    ensures
        key_at(m, k) matches Some(i) ==> 0 <= i < m.len() && (m[i].0 matches Yaml::Str(s) && s@
            == k) && forall|j: int|
            0 <= j < i ==> !((#[trigger] m[j]).0 matches Yaml::Str(s) && s@ == k),
        key_at(m, k) is None ==> forall|j: int|
            0 <= j < m.len() ==> !((#[trigger] m[j]).0 matches Yaml::Str(s) && s@ == k),
    decreases m.len(),
{
    if m.len() > 0 {
        let t = m.skip(1);
        law_keys_are_found(t, k);
        assert forall|j: int| 1 <= j < m.len() implies #[trigger] m[j] == t[j - 1] by {}
    }
}

// ---------------------------------------------------------------------------
// Strategies
// ---------------------------------------------------------------------------

/// A failure stops a matrix unless `fail-fast` is false.
pub proof fn law_fail_fast_is_the_default(v: Option<Yaml>)
    ensures
        v is None || v == Some(Yaml::Null) ==> fails_fast(v) == Ok::<bool, Text>(true),
        v matches Some(Yaml::Bool(b)) ==> fails_fast(v) == Ok::<bool, Text>(b),
        v matches Some(Yaml::Str(s)) ==> fails_fast(v) == Ok::<bool, Text>(
            spelled(s@) != ConditionalView::Bool(false),
        ),
        v matches Some(y) ==> (y is Number || y is Sequence || y is Mapping || y is Tagged)
            ==> fails_fast(v) is Err,
{
}

/// A strategy has the matrix and the `fail-fast` that the file gives.
pub proof fn law_strategies_keep_their_fields(r: RawStrategy)
    ensures
        strategy_of(r) matches Ok(s) ==> {
            &&& fails_fast(r.fail_fast) == Ok::<bool, Text>(s.fail_fast)
            &&& (r.matrix is None <==> s.matrix is None)
            &&& r.matrix matches Some(y) ==> matrix_of(y) == Ok::<_, Text>(s.matrix->Some_0)
        },
        strategy_of(r) is Ok <==> fails_fast(r.fail_fast) is Ok && (r.matrix matches Some(y)
            ==> matrix_of(y) is Ok),
{
}

/// The entries to add stand under `include`, those to leave out under `exclude`;
/// each is a combination, and where a key is absent there are none.
pub proof fn law_matrix_entries_are_read(m: Vec<(Yaml, Yaml)>)
    ensures
        matrix_of(Yaml::Mapping(m)) matches Ok(x) ==> {
            &&& key_at(m@, "include"@) is None ==> x.include_entries.len() == 0
            &&& key_at(m@, "exclude"@) is None ==> x.exclude.len() == 0
            &&& key_at(m@, "include"@) matches Some(i) ==> (m@[i].1 matches Yaml::Sequence(s)
                && x.include_entries.len() == s@.len() && forall|k: int|
                0 <= k < s@.len() ==> combination(s@[k]) == Ok::<Seq<(Text, Text)>, Text>(
                    #[trigger] x.include_entries[k],
                ))
            &&& key_at(m@, "exclude"@) matches Some(i) ==> (m@[i].1 matches Yaml::Sequence(s)
                && x.exclude.len() == s@.len() && forall|k: int|
                0 <= k < s@.len() ==> combination(s@[k]) == Ok::<Seq<(Text, Text)>, Text>(
                    #[trigger] x.exclude[k],
                ))
            &&& dimensions(m@) matches Ok(d) && x.dimensions == collected(d)
        },
{
    if let Ok(x) = matrix_of(Yaml::Mapping(m)) {
        if let Some(i) = key_at(m@, "include"@) {
            if let Yaml::Sequence(s) = m@[i].1 {
                lemma_good_combinations(s@);
            }
        }
        if let Some(i) = key_at(m@, "exclude"@) {
            if let Yaml::Sequence(s) = m@[i].1 {
                lemma_good_combinations(s@);
            }
        }
    }
}

proof fn lemma_good_combinations(s: Seq<Yaml>)
    ensures
        combinations(s) matches Ok(v) ==> v.len() == s.len() && forall|i: int|
            0 <= i < s.len() ==> combination(s[i]) == Ok::<Seq<(Text, Text)>, Text>(
                #[trigger] v[i],
            ),
    decreases s.len(),
{
    if s.len() > 0 {
        if let Ok(v) = combinations(s) {
            let t = s.skip(1);
            lemma_good_combinations(t);
            let w = combinations(t)->Ok_0;
            assert(v =~= seq![combination(s[0])->Ok_0] + w);
            assert forall|i: int| 0 <= i < s.len() implies combination(s[i]) == Ok::<
                Seq<(Text, Text)>,
                Text,
            >(#[trigger] v[i]) by {
                if i > 0 {
                    assert(v[i] == w[i - 1]);
                    assert(t[i - 1] == s[i]);
                }
            }
        }
    }
}

/// Every key of a matrix other than `include` and `exclude` is a dimension, with
/// its string or list as values; dimensions come in file order.
pub proof fn law_dimensions_are_the_other_keys(m: Seq<(Yaml, Yaml)>, e: (Yaml, Yaml))
    requires
        dimensions(m) is Ok,
    ensures
        (e.0 matches Yaml::Str(s) && (s@ == "include"@ || s@ == "exclude"@)) ==> dimensions(
            m.push(e),
        ) == dimensions(m),
        !(e.0 matches Yaml::Str(s) && (s@ == "include"@ || s@ == "exclude"@)) ==> (scalar_text(
            e.0,
        ) matches Ok(k) ==> (listed(Some(e.1)) matches Ok(v) ==> dimensions(m.push(e)) == Ok::<
            Seq<(Text, Seq<Text>)>,
            Text,
        >(dimensions(m)->Ok_0.push((k, v))))),
        !(e.0 matches Yaml::Str(s) && (s@ == "include"@ || s@ == "exclude"@)) ==> (scalar_text(
            e.0,
        ) matches Ok(k) ==> (listed(Some(e.1)) matches Err(x) ==> dimensions(m.push(e)) == Err::<
            Seq<(Text, Seq<Text>)>,
            Text,
        >("invalid matrix `"@ + k + "`"@ + ": "@ + x))),
        dimensions(Seq::empty()) == Ok::<Seq<(Text, Seq<Text>)>, Text>(Seq::empty()),
    decreases m.len(),
{
    reveal_with_fuel(dimensions, 2);
    if m.len() == 0 {
        assert(m.push(e).skip(1) =~= m);
        assert(m.push(e)[0] == e);
        assert(dimensions(m)->Ok_0 =~= Seq::empty());
        if let Ok(k) = scalar_text(e.0) {
            if let Ok(v) = listed(Some(e.1)) {
                assert(seq![(k, v)] + Seq::<(Text, Seq<Text>)>::empty() =~= Seq::<
                    (Text, Seq<Text>),
                >::empty().push((k, v)));
            }
        }
    } else {
        let t = m.skip(1);
        assert(m.push(e).skip(1) =~= t.push(e));
        assert(m.push(e)[0] == m[0]);
        law_dimensions_are_the_other_keys(t, e);
        if let Ok(k) = scalar_text(e.0) {
            if let Ok(v) = listed(Some(e.1)) {
                let w = dimensions(t)->Ok_0;
                let all = dimensions(m)->Ok_0;
                if all.len() > w.len() {
                    assert(seq![all[0]] + w.push((k, v)) =~= (seq![all[0]] + w).push((k, v)));
                }
            }
        }
    }
}

// ---------------------------------------------------------------------------
// Files
// ---------------------------------------------------------------------------

/// A workflow has the fields that the file gives and its jobs in file order, each
/// under its id.
pub proof fn law_workflows_keep_their_jobs(r: RawWorkflow)
    requires
        forall|i: int, j: int|
            0 <= i < j < r.jobs@.len() ==> (#[trigger] r.jobs@[i]).0@ != (#[trigger] r.jobs@[j]).0@,
    ensures
        workflow_of(r) matches Ok(w) ==> {
            &&& read_as(r.name, w.name)
            &&& read_as(r.defaults.shell, w.defaults.shell)
            &&& read_as(r.defaults.working_directory, w.defaults.working_directory)
            &&& scalar_table(r.env@, "workflow `env`"@) == Ok::<Seq<(Text, Text)>, Text>(w.env)
            &&& w.jobs.len() == r.jobs@.len()
            &&& forall|i: int|
                0 <= i < r.jobs@.len() ==> (#[trigger] w.jobs[i]).0 == r.jobs@[i].0@ && job_of(
                    r.jobs@[i].1,
                    r.jobs@[i].0@,
                ) == Ok::<JobView, Text>(w.jobs[i].1)
        },
{
    if let Ok(w) = workflow_of(r) {
        let jobs = jobs_of(r.jobs@)->Ok_0;
        lemma_good_jobs(r.jobs@);
        assert forall|i: int, j: int| 0 <= i < j < jobs.len() implies (#[trigger] jobs[i]).0 != (
        #[trigger] jobs[j]).0 by {
            assert(r.jobs@[i].0@ != r.jobs@[j].0@);
        }
        law_distinct_pairs_are_kept(jobs);
    }
}

proof fn lemma_good_jobs(s: Seq<(String, RawJob)>)
    ensures
        jobs_of(s) matches Ok(v) ==> v.len() == s.len() && forall|i: int|
            0 <= i < s.len() ==> (#[trigger] v[i]).0 == s[i].0@ && job_of(s[i].1, s[i].0@) == Ok::<
                JobView,
                Text,
            >(v[i].1),
    decreases s.len(),
{
    if s.len() > 0 {
        if let Ok(v) = jobs_of(s) {
            let t = s.skip(1);
            lemma_good_jobs(t);
            let w = jobs_of(t)->Ok_0;
            assert(v =~= seq![(s[0].0@, job_of(s[0].1, s[0].0@)->Ok_0)] + w);
            assert forall|i: int| 0 <= i < s.len() implies (#[trigger] v[i]).0 == s[i].0@ && job_of(
                s[i].1,
                s[i].0@,
            ) == Ok::<JobView, Text>(v[i].1) by {
                if i > 0 {
                    assert(v[i] == w[i - 1]);
                    assert(t[i - 1] == s[i]);
                }
            }
        }
    }
}

/// A file that is blank, that is no YAML or that has no jobs is an error that says
/// so; any other is read where its jobs and its environment are.
pub proof fn law_files_that_are_read(text: Text, read: Result<RawWorkflow, String>)
    ensures
        is_blank(text) ==> parsed(text, read) == Err::<WorkflowView, Text>("workflow file is empty"@),
        !is_blank(text) ==> (read matches Err(e) ==> parsed(text, read) == Err::<WorkflowView, Text>(
            "invalid workflow YAML: "@ + e@,
        )),
        !is_blank(text) ==> (read matches Ok(r) ==> parsed(text, read) == workflow_of(r)),
        read matches Ok(r) ==> (r.jobs@.len() == 0 ==> workflow_of(r) == Err::<WorkflowView, Text>(
            "workflow defines no `jobs`"@,
        )),
        read matches Ok(r) ==> (workflow_of(r) is Ok <==> r.jobs@.len() > 0 && jobs_of(
            r.jobs@,
        ) is Ok && scalar_table(r.env@, "workflow `env`"@) is Ok),
{
}

// ---------------------------------------------------------------------------
// Actions
// ---------------------------------------------------------------------------

/// An input has the default that the action gives as text, and is required where
/// the action says `true`.
pub proof fn law_inputs_keep_their_fields(r: RawInput)
    ensures
        input_of(r) matches Ok(x) ==> {
            &&& (r.default is None <==> x.default is None)
            &&& r.default matches Some(y) ==> scalar_text(y) == Ok::<Text, Text>(x.default->Some_0)
            &&& (x.required <==> conditional(r.required) == Ok::<ConditionalView, Text>(
                ConditionalView::Bool(true),
            ))
        },
        input_of(r) is Ok <==> conditional(r.required) is Ok && (r.default matches Some(y)
            ==> scalar_text(y) is Ok),
{
}

/// What an action runs goes by `using`: the steps of a composite one, `main` of a
/// JavaScript one, and the image, entry point, arguments and environment of a
/// Docker one.
pub proof fn law_actions_run_what_they_say(r: RawRuns)
    ensures
        lowered(r.using@) == "composite"@ ==> match runs_of(r) {
            Ok(x) => x matches RunsView::Composite(s) && s.len() == r.steps@.len() && forall|i: int|
                0 <= i < s.len() ==> step_of(r.steps@[i]) == Ok::<StepView, Text>(#[trigger] s[i]),
            Err(e) => steps_of(r.steps@, 0) == Err::<Seq<StepView>, Text>(e),
        },
        (exists|v: Text| lowered(r.using@) == #[trigger] ("node"@ + v)) ==> match r.main {
            Some(main) => runs_of(r) == Ok::<RunsView, Text>(RunsView::Node(main@)),
            None => runs_of(r) == Err::<RunsView, Text>("a JavaScript action needs `runs.main`"@),
        },
        lowered(r.using@) == "docker"@ ==> (runs_of(r) matches Ok(x) ==> {
            &&& x matches RunsView::Docker(image, entry, args, env)
            &&& read_as(r.image, Some(image))
            &&& read_as(r.entrypoint, entry)
            &&& listed(r.args) == Ok::<Seq<Text>, Text>(args)
            &&& scalar_table(r.env@, "`runs.env`"@) == Ok::<Seq<(Text, Text)>, Text>(env)
        }),
        lowered(r.using@) == "docker"@ ==> (runs_of(r) is Ok <==> r.image is Some && listed(
            r.args,
        ) is Ok && scalar_table(r.env@, "`runs.env`"@) is Ok),
        lowered(r.using@) == "docker"@ && r.image is None ==> runs_of(r) == Err::<RunsView, Text>(
            "a Docker action needs `runs.image`"@,
        ),
        lowered(r.using@) != "composite"@ && lowered(r.using@) != "docker"@ && !(exists|v: Text|
            lowered(r.using@) == #[trigger] ("node"@ + v)) ==> runs_of(r) == Err::<RunsView, Text>(
            "unsupported `runs.using: "@ + r.using@ + "`"@,
        ),
{
    let u = lowered(r.using@);
    reveal_strlit("composite");
    reveal_strlit("docker");
    reveal_strlit("node");
    assert("composite"@[0] == 'c' && "docker"@[0] == 'd' && "node"@[0] == 'n');
    assert("node"@.len() == 4);
    lemma_good_steps(r.steps@, 0);
    if crate::text::begins(u, "node"@) {
        assert(u =~= "node"@ + u.skip(4));
        assert(u[0] == u.subrange(0, 4)[0]);
    }
    if exists|v: Text| u == #[trigger] ("node"@ + v) {
        let v = choose|v: Text| u == #[trigger] ("node"@ + v);
        assert(u.subrange(0, 4) =~= "node"@);
        assert(u[0] == 'n');
    }
}

/// An action has its inputs, its outputs and what it runs, in file order.
pub proof fn law_actions_keep_their_fields(r: RawAction)
    requires
        forall|i: int, j: int|
            0 <= i < j < r.inputs@.len() ==> (#[trigger] r.inputs@[i]).0@ != (
            #[trigger] r.inputs@[j]).0@,
        forall|i: int, j: int|
            0 <= i < j < r.outputs@.len() ==> (#[trigger] r.outputs@[i]).0@ != (
            #[trigger] r.outputs@[j]).0@,
    ensures
        action_def_of(r) matches Ok(a) ==> {
            &&& runs_of(r.runs) == Ok::<RunsView, Text>(a.runs)
            &&& a.inputs.len() == r.inputs@.len()
            &&& forall|i: int|
                0 <= i < r.inputs@.len() ==> (#[trigger] a.inputs[i]).0 == r.inputs@[i].0@
                    && input_of(r.inputs@[i].1) == Ok::<InputView, Text>(a.inputs[i].1)
            &&& a.outputs.len() == r.outputs@.len()
            &&& forall|i: int|
                0 <= i < r.outputs@.len() ==> (#[trigger] a.outputs[i]).0 == r.outputs@[i].0@
                    && read_as(r.outputs@[i].1, a.outputs[i].1)
        },
        action_def_of(r) is Ok <==> inputs_of(r.inputs@) is Ok && runs_of(r.runs) is Ok,
{
    if let Ok(a) = action_def_of(r) {
        let ins = inputs_of(r.inputs@)->Ok_0;
        lemma_good_inputs(r.inputs@);
        assert forall|i: int, j: int| 0 <= i < j < ins.len() implies (#[trigger] ins[i]).0 != (
        #[trigger] ins[j]).0 by {
            assert(r.inputs@[i].0@ != r.inputs@[j].0@);
        }
        law_distinct_pairs_are_kept(ins);
        let outs = raw_outputs(r.outputs@);
        assert forall|i: int, j: int| 0 <= i < j < outs.len() implies (#[trigger] outs[i]).0 != (
        #[trigger] outs[j]).0 by {
            assert(r.outputs@[i].0@ != r.outputs@[j].0@);
        }
        law_distinct_pairs_are_kept(outs);
    }
}

proof fn lemma_good_inputs(s: Seq<(String, RawInput)>)
    ensures
        inputs_of(s) matches Ok(v) ==> v.len() == s.len() && forall|i: int|
            0 <= i < s.len() ==> (#[trigger] v[i]).0 == s[i].0@ && input_of(s[i].1) == Ok::<
                InputView,
                Text,
            >(v[i].1),
    decreases s.len(),
{
    if s.len() > 0 {
        if let Ok(v) = inputs_of(s) {
            let t = s.skip(1);
            lemma_good_inputs(t);
            let w = inputs_of(t)->Ok_0;
            assert(v =~= seq![(s[0].0@, input_of(s[0].1)->Ok_0)] + w);
            assert forall|i: int| 0 <= i < s.len() implies (#[trigger] v[i]).0 == s[i].0@
                && input_of(s[i].1) == Ok::<InputView, Text>(v[i].1) by {
                if i > 0 {
                    assert(v[i] == w[i - 1]);
                    assert(t[i - 1] == s[i]);
                }
            }
        }
    }
}

/// Of a list of labels only the scalars count, in order.
pub proof fn law_labels_are_the_scalars(s: Seq<Yaml>, v: Yaml)
    ensures
        scalars_among(Seq::empty()) == Seq::<Text>::empty(),
        scalar_text(v) matches Ok(t) ==> scalars_among(s.push(v)) == scalars_among(s).push(t),
        scalar_text(v) is Err ==> scalars_among(s.push(v)) == scalars_among(s),
{
    assert(s.push(v).drop_last() =~= s);
}

} // verus!
