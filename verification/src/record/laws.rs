//! What recordings say of the runs that they were made from.

use crate::diff::{EntryView, EnvDiffView, FsDiffView};
use crate::model::StepActionView;
use crate::order::{law_sorted_texts, sorted_texts};
use crate::record::{
    all_changes, all_steps, change_of, changes_between, changes_of, code_text, dated, effects,
    env_effect, env_keys, env_line, env_lines, file_effects, file_line, file_lines, file_paths,
    file_state, kind_of, last_change, last_hash, last_value, law_last_write_wins, line_if, listed,
    outdated, passed_over, ran, refers, step_trace, text_or, touches, traced, unreferenced,
    with_date, with_hashes, with_run, FileChangeView, JobView, RunView, StepView, TraceView,
};
use crate::exec::mask::without_secrets;
use crate::table::lookup;
use crate::text::Text;
use vstd::prelude::*;

verus! {

// ---------------------------------------------------------------------------
// The content of a file
// ---------------------------------------------------------------------------

/// Whether a place among the jobs, their steps and the changes of those comes
/// behind another.
pub open spec fn is_later(j: int, s: int, f: int, a: int, b: int, c: int) -> bool {
    a > j || (a == j && (b > s || (b == s && c > f)))
}

/// Whether a change stands at a place.
pub open spec fn is_change(jobs: Seq<JobView>, j: int, s: int, f: int) -> bool {
    0 <= j < jobs.len() && 0 <= s < jobs[j].steps.len() && 0 <= f < jobs[j].steps[s].files.len()
}

/// The path that changed at a place.
pub open spec fn path_at(jobs: Seq<JobView>, j: int, s: int, f: int) -> Text {
    jobs[j].steps[s].files[f].path
}

/// The content of a file is what the last change of its path left, in whichever
/// job and step that stands; a file that was removed last has none.
pub proof fn law_the_last_change_of_any_job_counts(
    jobs: Seq<JobView>,
    j: int,
    s: int,
    f: int,
    path: Text,
)
    requires
        is_change(jobs, j, s, f),
        path_at(jobs, j, s, f) == path,
        forall|a: int, b: int, c: int|
            is_change(jobs, a, b, c) && is_later(j, s, f, a, b, c) ==> #[trigger] path_at(
                jobs,
                a,
                b,
                c,
            ) != path,
    ensures
        jobs[j].steps[s].files[f].status == "removed"@ ==> last_hash(
            all_changes(all_steps(jobs)),
            path,
        ) is None,
        jobs[j].steps[s].files[f].status != "removed"@ ==> last_hash(
            all_changes(all_steps(jobs)),
            path,
        ) == jobs[j].steps[s].files[f].hash,
    decreases jobs.len(),
{
    let d = jobs.drop_last();
    let last = jobs.last();
    let n = jobs.len() - 1;
    lemma_changes_join(all_steps(d), last.steps);
    law_last_write_wins(all_changes(all_steps(d)), all_changes(last.steps), path);
    if j == n {
        assert forall|b: int, c: int|
            0 <= b < last.steps.len() && 0 <= c < last.steps[b].files.len() && (b > s || (b == s
                && c > f)) implies (#[trigger] last.steps[b].files[c]).path != path by {
            assert(path_at(jobs, n, b, c) != path);
        }
        lemma_last_step_counts(last.steps, s, f, path);
    } else {
        assert forall|b: int, c: int|
            0 <= b < last.steps.len() && 0 <= c < last.steps[b].files.len() implies (
        #[trigger] last.steps[b].files[c]).path != path by {
            assert(path_at(jobs, n, b, c) != path);
        }
        lemma_untouched_steps(last.steps, path);
        assert forall|a: int, b: int, c: int|
            is_change(d, a, b, c) && is_later(j, s, f, a, b, c) implies #[trigger] path_at(
            d,
            a,
            b,
            c,
        ) != path by {
            assert(path_at(jobs, a, b, c) != path);
        }
        assert(path_at(d, j, s, f) == path);
        law_the_last_change_of_any_job_counts(d, j, s, f, path);
    }
}

/// A file that no step of any job touched has no content.
pub proof fn law_untouched_files_have_no_content(jobs: Seq<JobView>, path: Text)
    requires
        forall|a: int, b: int, c: int|
            is_change(jobs, a, b, c) ==> #[trigger] path_at(jobs, a, b, c) != path,
    ensures
        last_hash(all_changes(all_steps(jobs)), path) is None,
    decreases jobs.len(),
{
    if jobs.len() > 0 {
        let d = jobs.drop_last();
        let last = jobs.last();
        assert forall|b: int, c: int|
            0 <= b < last.steps.len() && 0 <= c < last.steps[b].files.len() implies (
        #[trigger] last.steps[b].files[c]).path != path by {
            assert(path_at(jobs, jobs.len() - 1, b, c) != path);
        }
        lemma_untouched_steps(last.steps, path);
        lemma_changes_join(all_steps(d), last.steps);
        law_last_write_wins(all_changes(all_steps(d)), all_changes(last.steps), path);
        assert forall|a: int, b: int, c: int| is_change(d, a, b, c) implies #[trigger] path_at(
            d,
            a,
            b,
            c,
        ) != path by {
            assert(path_at(jobs, a, b, c) != path);
        }
        law_untouched_files_have_no_content(d, path);
    }
}

proof fn lemma_changes_join(a: Seq<StepView>, b: Seq<StepView>)
    ensures
        all_changes(a + b) == all_changes(a) + all_changes(b),
    decreases b.len(),
{
    if b.len() == 0 {
        assert(a + b =~= a);
        assert(all_changes(a) + Seq::<FileChangeView>::empty() =~= all_changes(a));
    } else {
        lemma_changes_join(a, b.drop_last());
        assert((a + b).drop_last() =~= a + b.drop_last());
        assert((a + b).last() == b.last());
        assert((all_changes(a) + all_changes(b.drop_last())) + b.last().files =~= all_changes(a) + (
        all_changes(b.drop_last()) + b.last().files));
    }
}

proof fn lemma_touches(files: Seq<FileChangeView>, path: Text)
    ensures
        touches(files, path) <==> exists|c: int|
            0 <= c < files.len() && (#[trigger] files[c]).path == path,
    decreases files.len(),
{
    if files.len() > 0 {
        let d = files.drop_last();
        lemma_touches(d, path);
        if touches(files, path) {
            if files.last().path == path {
                assert(files[files.len() - 1].path == path);
            } else {
                let c = choose|c: int| 0 <= c < d.len() && (#[trigger] d[c]).path == path;
                assert(files[c].path == path);
            }
        }
        if exists|c: int| 0 <= c < files.len() && (#[trigger] files[c]).path == path {
            let c = choose|c: int| 0 <= c < files.len() && (#[trigger] files[c]).path == path;
            if c < d.len() {
                assert(d[c].path == path);
            }
        }
    }
}

proof fn lemma_last_file(files: Seq<FileChangeView>, f: int, path: Text)
    requires
        0 <= f < files.len(),
        files[f].path == path,
        forall|c: int| f < c < files.len() ==> (#[trigger] files[c]).path != path,
    ensures
        touches(files, path),
        last_hash(files, path) == (if files[f].status == "removed"@ {
            None
        } else {
            files[f].hash
        }),
    decreases files.len(),
{
    if f < files.len() - 1 {
        assert(files[files.len() - 1].path != path);
        let d = files.drop_last();
        assert forall|c: int| f < c < d.len() implies (#[trigger] d[c]).path != path by {
            assert(files[c].path != path);
        }
        lemma_last_file(d, f, path);
    }
}

proof fn lemma_untouched_steps(steps: Seq<StepView>, path: Text)
    requires
        forall|b: int, c: int|
            0 <= b < steps.len() && 0 <= c < steps[b].files.len() ==> (
            #[trigger] steps[b].files[c]).path != path,
    ensures
        !touches(all_changes(steps), path),
        last_hash(all_changes(steps), path) is None,
    decreases steps.len(),
{
    let all = all_changes(steps);
    if steps.len() > 0 {
        let d = steps.drop_last();
        assert forall|b: int, c: int|
            0 <= b < d.len() && 0 <= c < d[b].files.len() implies (#[trigger] d[b].files[c]).path
            != path by {
            assert(steps[b].files[c].path != path);
        }
        lemma_untouched_steps(d, path);
        let files = steps.last().files;
        assert forall|c: int| 0 <= c < files.len() implies (#[trigger] files[c]).path != path by {
            assert(steps[steps.len() - 1].files[c].path != path);
        }
        lemma_touches(files, path);
        law_last_write_wins(all_changes(d), files, path);
        lemma_touches(all_changes(d), path);
        lemma_touches(all, path);
        if touches(all, path) {
            let c = choose|c: int| 0 <= c < all.len() && (#[trigger] all[c]).path == path;
            if c < all_changes(d).len() {
                assert(all_changes(d)[c].path == path);
            } else {
                assert(files[c - all_changes(d).len()].path == path);
            }
        }
    }
}

proof fn lemma_last_step_counts(steps: Seq<StepView>, s: int, f: int, path: Text)
    requires
        0 <= s < steps.len(),
        0 <= f < steps[s].files.len(),
        steps[s].files[f].path == path,
        forall|b: int, c: int|
            0 <= b < steps.len() && 0 <= c < steps[b].files.len() && (b > s || (b == s && c > f))
                ==> (#[trigger] steps[b].files[c]).path != path,
    ensures
        touches(all_changes(steps), path),
        last_hash(all_changes(steps), path) == (if steps[s].files[f].status == "removed"@ {
            None
        } else {
            steps[s].files[f].hash
        }),
    decreases steps.len(),
{
    let d = steps.drop_last();
    let files = steps.last().files;
    let all = all_changes(steps);
    law_last_write_wins(all_changes(d), files, path);
    lemma_touches(all, path);
    if s == steps.len() - 1 {
        assert forall|c: int| f < c < files.len() implies (#[trigger] files[c]).path != path by {
            assert(steps[s].files[c].path != path);
        }
        lemma_last_file(files, f, path);
        assert(all[all_changes(d).len() + f] == files[f]);
    } else {
        assert forall|c: int| 0 <= c < files.len() implies (#[trigger] files[c]).path != path by {
            assert(steps[steps.len() - 1].files[c].path != path);
        }
        lemma_touches(files, path);
        assert forall|b: int, c: int|
            0 <= b < d.len() && 0 <= c < d[b].files.len() && (b > s || (b == s && c > f)) implies (
        #[trigger] d[b].files[c]).path != path by {
            assert(steps[b].files[c].path != path);
        }
        lemma_last_step_counts(d, s, f, path);
        lemma_touches(all_changes(d), path);
        let c = choose|c: int|
            0 <= c < all_changes(d).len() && (#[trigger] all_changes(d)[c]).path == path;
        assert(all[c] == all_changes(d)[c]);
    }
}

// ---------------------------------------------------------------------------
// Traces
// ---------------------------------------------------------------------------

/// A trace has every effect of every step of every job on the name, under the
/// number and label of the step, and nothing else.
pub proof fn law_traces_cover_every_job(jobs: Seq<JobView>, name: Text, t: TraceView)
    ensures
        traced(all_steps(jobs), name).contains(t) <==> exists|j: int, s: int, e: int|
            0 <= j < jobs.len() && 0 <= s < jobs[j].steps.len() && 0 <= e < effects(
                jobs[j].steps[s],
                name,
            ).len() && t.step == jobs[j].steps[s].number && t.label == jobs[j].steps[s].label
                && t.effect == #[trigger] effects(jobs[j].steps[s], name)[e],
    decreases jobs.len(),
{
    let all = traced(all_steps(jobs), name);
    if jobs.len() > 0 {
        let d = jobs.drop_last();
        let last = jobs.last();
        law_traces_cover_every_job(d, name, t);
        lemma_traces_join(all_steps(d), last.steps, name);
        let x = traced(all_steps(d), name);
        let y = traced(last.steps, name);
        lemma_step_traces(last.steps, name, t);
        if all.contains(t) {
            let i = choose|i: int| 0 <= i < all.len() && all[i] == t;
            if i < x.len() {
                assert(x[i] == t);
                let (j, s, e) = choose|j: int, s: int, e: int|
                    0 <= j < d.len() && 0 <= s < d[j].steps.len() && 0 <= e < effects(
                        d[j].steps[s],
                        name,
                    ).len() && t.step == d[j].steps[s].number && t.label == d[j].steps[s].label
                        && t.effect == #[trigger] effects(d[j].steps[s], name)[e];
                assert(t.effect == effects(jobs[j].steps[s], name)[e]);
            } else {
                assert(y[i - x.len()] == t);
                let (s, e) = choose|s: int, e: int|
                    0 <= s < last.steps.len() && 0 <= e < effects(last.steps[s], name).len()
                        && t.step == last.steps[s].number && t.label == last.steps[s].label
                        && t.effect == #[trigger] effects(last.steps[s], name)[e];
                assert(t.effect == effects(jobs[jobs.len() - 1].steps[s], name)[e]);
            }
        }
        if exists|j: int, s: int, e: int|
            0 <= j < jobs.len() && 0 <= s < jobs[j].steps.len() && 0 <= e < effects(
                jobs[j].steps[s],
                name,
            ).len() && t.step == jobs[j].steps[s].number && t.label == jobs[j].steps[s].label
                && t.effect == #[trigger] effects(jobs[j].steps[s], name)[e] {
            let (j, s, e) = choose|j: int, s: int, e: int|
                0 <= j < jobs.len() && 0 <= s < jobs[j].steps.len() && 0 <= e < effects(
                    jobs[j].steps[s],
                    name,
                ).len() && t.step == jobs[j].steps[s].number && t.label == jobs[j].steps[s].label
                    && t.effect == #[trigger] effects(jobs[j].steps[s], name)[e];
            if j < d.len() {
                assert(t.effect == effects(d[j].steps[s], name)[e]);
                let i = choose|i: int| 0 <= i < x.len() && x[i] == t;
                assert(all[i] == t);
            } else {
                assert(t.effect == effects(last.steps[s], name)[e]);
                let i = choose|i: int| 0 <= i < y.len() && y[i] == t;
                assert(all[x.len() + i] == t);
            }
        }
    }
}

/// The trace of jobs is that of the first ones and then that of the rest.
pub proof fn law_traces_go_job_by_job(a: Seq<JobView>, j: JobView, name: Text)
    ensures
        traced(all_steps(a.push(j)), name) == traced(all_steps(a), name) + traced(j.steps, name),
        traced(all_steps(seq![j]), name) == traced(j.steps, name),
{
    assert(a.push(j).drop_last() =~= a);
    lemma_traces_join(all_steps(a), j.steps, name);
    assert(seq![j].drop_last() =~= Seq::<JobView>::empty());
    assert(all_steps(Seq::<JobView>::empty()) + j.steps =~= j.steps);
    reveal_with_fuel(all_steps, 2);
}

/// The trace of steps is that of the first ones and then that of the rest.
proof fn lemma_traces_join(a: Seq<StepView>, b: Seq<StepView>, name: Text)
    ensures
        traced(a + b, name) == traced(a, name) + traced(b, name),
    decreases b.len(),
{
    if b.len() == 0 {
        assert(a + b =~= a);
        assert(traced(a, name) + Seq::<TraceView>::empty() =~= traced(a, name));
    } else {
        lemma_traces_join(a, b.drop_last(), name);
        assert((a + b).drop_last() =~= a + b.drop_last());
        assert((a + b).last() == b.last());
        assert(traced(a + b, name) =~= traced(a, name) + traced(b, name));
    }
}

proof fn lemma_step_traces(steps: Seq<StepView>, name: Text, t: TraceView)
    ensures
        traced(steps, name).contains(t) <==> exists|s: int, e: int|
            0 <= s < steps.len() && 0 <= e < effects(steps[s], name).len() && t.step
                == steps[s].number && t.label == steps[s].label && t.effect == #[trigger] effects(
                steps[s],
                name,
            )[e],
    decreases steps.len(),
{
    let all = traced(steps, name);
    if steps.len() > 0 {
        let d = steps.drop_last();
        let last = steps.last();
        lemma_step_traces(d, name, t);
        let x = traced(d, name);
        let y = step_trace(last, name);
        if all.contains(t) {
            let i = choose|i: int| 0 <= i < all.len() && all[i] == t;
            if i < x.len() {
                assert(x[i] == t);
                let (s, e) = choose|s: int, e: int|
                    0 <= s < d.len() && 0 <= e < effects(d[s], name).len() && t.step == d[s].number
                        && t.label == d[s].label && t.effect == #[trigger] effects(d[s], name)[e];
                assert(t.effect == effects(steps[s], name)[e]);
            } else {
                assert(y[i - x.len()] == t);
                assert(t.effect == effects(steps[steps.len() - 1], name)[i - x.len()]);
            }
        }
        if exists|s: int, e: int|
            0 <= s < steps.len() && 0 <= e < effects(steps[s], name).len() && t.step
                == steps[s].number && t.label == steps[s].label && t.effect == #[trigger] effects(
                steps[s],
                name,
            )[e] {
            let (s, e) = choose|s: int, e: int|
                0 <= s < steps.len() && 0 <= e < effects(steps[s], name).len() && t.step
                    == steps[s].number && t.label == steps[s].label && t.effect
                    == #[trigger] effects(steps[s], name)[e];
            if s < d.len() {
                assert(t.effect == effects(d[s], name)[e]);
                let i = choose|i: int| 0 <= i < x.len() && x[i] == t;
                assert(all[i] == t);
            } else {
                assert(all[x.len() + e] == t);
            }
        }
    }
}

// ---------------------------------------------------------------------------
// What a step did to a name
// ---------------------------------------------------------------------------

/// A step that set, changed or removed a variable, put a directory on the path or
/// touched a file has the effect that says so, and no effect says anything else.
pub proof fn law_effects_say_what_was_done(s: StepView, name: Text)
    ensures
        lookup(s.env_added, name) matches Some(v) ==> effects(s, name).contains(
            "set it to "@ + v,
        ),
        change_of(s.env_changed, name) matches Some(p) ==> effects(s, name).contains(
            "changed it "@ + p.0 + " → "@ + p.1,
        ),
        s.env_removed.contains(name) ==> effects(s, name).contains("removed it from the env"@),
        s.path_added.contains(name) ==> effects(s, name).contains("prepended it to PATH"@),
        forall|f: int|
            0 <= f < s.files.len() && (#[trigger] s.files[f]).path == name && s.files[f].status
                == "added"@ ==> effects(s, name).contains("created the file"@),
        forall|f: int|
            0 <= f < s.files.len() && (#[trigger] s.files[f]).path == name && s.files[f].status
                == "removed"@ ==> effects(s, name).contains("removed the file"@),
        forall|f: int|
            0 <= f < s.files.len() && (#[trigger] s.files[f]).path == name && s.files[f].status
                == "modified"@ ==> effects(s, name).contains("modified the file"@),
        lookup(s.env_added, name) is None && change_of(s.env_changed, name) is None
            && !s.env_removed.contains(name) && !s.path_added.contains(name) && (forall|f: int|
            0 <= f < s.files.len() ==> (#[trigger] s.files[f]).path != name) ==> effects(
            s,
            name,
        ).len() == 0,
        effects(s, name).len() == (if lookup(s.env_added, name) is Some {
            1nat
        } else {
            0nat
        }) + (if change_of(s.env_changed, name) is Some {
            1nat
        } else {
            0nat
        }) + (if s.env_removed.contains(name) {
            1nat
        } else {
            0nat
        }) + (if s.path_added.contains(name) {
            1nat
        } else {
            0nat
        }) + s.files.filter(|f: FileChangeView| f.path == name).len(),
{
    let all = effects(s, name);
    let p1: Seq<Text> = match lookup(s.env_added, name) {
        Some(v) => seq!["set it to "@ + v],
        None => Seq::empty(),
    };
    let p2: Seq<Text> = match change_of(s.env_changed, name) {
        Some(p) => seq!["changed it "@ + p.0 + " → "@ + p.1],
        None => Seq::empty(),
    };
    let p3: Seq<Text> = if s.env_removed.contains(name) {
        seq!["removed it from the env"@]
    } else {
        Seq::empty()
    };
    let p4: Seq<Text> = if s.path_added.contains(name) {
        seq!["prepended it to PATH"@]
    } else {
        Seq::empty()
    };
    let p5 = file_effects(s.files, name);
    assert(all =~= p1 + p2 + p3 + p4 + p5);
    if p1.len() > 0 {
        assert(all[0] == p1[0]);
    }
    if p2.len() > 0 {
        assert(all[p1.len() as int] == p2[0]);
    }
    if p3.len() > 0 {
        assert(all[p1.len() + p2.len() as int] == p3[0]);
    }
    if p4.len() > 0 {
        assert(all[p1.len() + p2.len() + p3.len() as int] == p4[0]);
    }
    reveal_strlit("added");
    reveal_strlit("removed");
    reveal_strlit("modified");
    assert("added"@.len() == 5 && "removed"@.len() == 7 && "modified"@.len() == 8);
    let off = (p1.len() + p2.len() + p3.len() + p4.len()) as int;
    lemma_file_effects_len(s.files, name);
    assert forall|f: int| 0 <= f < s.files.len() && (#[trigger] s.files[f]).path == name implies (
    s.files[f].status == "added"@ ==> all.contains("created the file"@)) && (s.files[f].status
        == "removed"@ ==> all.contains("removed the file"@)) && (s.files[f].status == "modified"@
        ==> all.contains("modified the file"@)) by {
        let i = lemma_file_effect(s.files, name, f);
        assert(all[off + i] == p5[i]);
    }
    if forall|f: int| 0 <= f < s.files.len() ==> (#[trigger] s.files[f]).path != name {
        lemma_no_file_effects(s.files, name);
    }
}

proof fn lemma_file_effects_len(files: Seq<FileChangeView>, name: Text)
    ensures
        file_effects(files, name).len() == files.filter(
            |f: FileChangeView| f.path == name,
        ).len(),
    decreases files.len(),
{
    reveal(Seq::filter);
    if files.len() > 0 {
        lemma_file_effects_len(files.drop_last(), name);
    }
}

proof fn lemma_no_file_effects(files: Seq<FileChangeView>, name: Text)
    requires
        forall|f: int| 0 <= f < files.len() ==> (#[trigger] files[f]).path != name,
    ensures
        file_effects(files, name).len() == 0,
    decreases files.len(),
{
    if files.len() > 0 {
        let d = files.drop_last();
        assert forall|f: int| 0 <= f < d.len() implies (#[trigger] d[f]).path != name by {
            assert(files[f].path != name);
        }
        assert(files[files.len() - 1].path != name);
        lemma_no_file_effects(d, name);
    }
}

proof fn lemma_file_effect(files: Seq<FileChangeView>, name: Text, f: int) -> (i: int)
    requires
        0 <= f < files.len(),
        files[f].path == name,
    ensures
        0 <= i < file_effects(files, name).len(),
        file_effects(files, name)[i] == crate::record::file_effect(files[f].status),
    decreases files.len(),
{
    let d = files.drop_last();
    if f < d.len() {
        lemma_file_effect(d, name, f)
    } else {
        file_effects(d, name).len() as int
    }
}

/// The first triple of a variable is its change.
pub proof fn law_changes_are_found(v: Seq<(Text, Text, Text)>, k: Text, i: int)
    ensures
        (0 <= i < v.len() && v[i].0 == k && (forall|j: int|
            0 <= j < i ==> (#[trigger] v[j]).0 != k)) ==> change_of(v, k) == Some((v[i].1, v[i].2)),
        (forall|j: int| 0 <= j < v.len() ==> (#[trigger] v[j]).0 != k) ==> change_of(v, k) is None,
    decreases v.len(),
{
    if v.len() > 0 {
        let t = v.skip(1);
        law_changes_are_found(t, k, i - 1);
        if 0 <= i < v.len() && v[i].0 == k && (forall|j: int|
            0 <= j < i ==> (#[trigger] v[j]).0 != k) && i > 0 {
            assert(v[0].0 != k);
            assert forall|j: int| 0 <= j < i - 1 implies (#[trigger] t[j]).0 != k by {
                assert(v[j + 1].0 != k);
            }
        }
        if forall|j: int| 0 <= j < v.len() ==> (#[trigger] v[j]).0 != k {
            assert(v[0].0 != k);
            assert forall|j: int| 0 <= j < t.len() implies (#[trigger] t[j]).0 != k by {
                assert(v[j + 1].0 != k);
            }
        }
    }
}

// ---------------------------------------------------------------------------
// Records of steps
// ---------------------------------------------------------------------------

/// The record of a step that ran has its number, its label and kind, how it ended,
/// and what it did with every secret value hidden.
pub proof fn law_records_say_how_a_step_ran(
    step: crate::model::StepView,
    number: usize,
    ok: bool,
    exit_code: Option<i32>,
    env: EnvDiffView,
    fs: FsDiffView,
    hashes: Seq<Option<Text>>,
    secrets: Seq<(Text, Text)>,
)
    ensures
        ({
            let r = ran(step, number, ok, exit_code, env, fs, hashes, secrets);
            &&& r.number == number
            &&& r.label == crate::exec::step::label_of(step)
            &&& ok ==> r.outcome == "success"@
            &&& !ok ==> r.outcome == "failure"@
            &&& r.exit_code == exit_code
            &&& r.env_added.len() == env.added.len()
            &&& forall|i: int|
                0 <= i < env.added.len() ==> #[trigger] r.env_added[i] == (
                    env.added[i].0,
                    without_secrets(env.added[i].1, secrets),
                )
            &&& r.env_changed.len() == env.changed.len()
            &&& forall|i: int|
                0 <= i < env.changed.len() ==> #[trigger] r.env_changed[i] == (
                    env.changed[i].0,
                    without_secrets(env.changed[i].1, secrets),
                    without_secrets(env.changed[i].2, secrets),
                )
            &&& r.env_removed == env.removed
            &&& r.path_added.len() == env.path_added.len()
            &&& forall|i: int|
                0 <= i < env.path_added.len() ==> #[trigger] r.path_added[i] == without_secrets(
                    env.path_added[i],
                    secrets,
                )
            &&& r.files_truncated == fs.truncated
            &&& r.failure is None
            &&& r.skip_reason.len() == 0
            &&& r.files.len() == fs.added.len() + fs.removed.len() + fs.modified.len()
        }),
        match step.action {
            StepActionView::Run(_) => kind_of(step) == "run"@,
            StepActionView::Uses(action, _) => kind_of(step) == "uses:"@ + action,
        },
        ran(step, number, ok, exit_code, env, fs, hashes, secrets).kind == kind_of(step),
{
}

/// A recorded change is that of an entry that was added, removed or modified, in
/// this order; only a file that is still there has a hash, the one given for it.
pub proof fn law_recorded_changes(fs: FsDiffView, hashes: Seq<Option<Text>>)
    ensures
        ({
            let r = with_hashes(changes_of(fs), hashes);
            let a = fs.added.len() as int;
            let b = fs.removed.len() as int;
            let m = fs.modified.len() as int;
            &&& r.len() == a + b + m
            &&& forall|i: int|
                0 <= i < a ==> (#[trigger] r[i]).status == "added"@ && match fs.added[i] {
                    EntryView::File(p) => r[i].path == p && r[i].dir_files is None && (r[i].hash
                        == if i < hashes.len() {
                        hashes[i]
                    } else {
                        None
                    }),
                    EntryView::Dir(p, n) => r[i].path == p && r[i].dir_files == Some(n as usize)
                        && r[i].hash is None,
                }
            &&& forall|i: int|
                a <= i < a + b ==> (#[trigger] r[i]).status == "removed"@ && r[i].hash is None
                    && match fs.removed[i - a] {
                    EntryView::File(p) => r[i].path == p && r[i].dir_files is None,
                    EntryView::Dir(p, n) => r[i].path == p && r[i].dir_files == Some(n as usize),
                }
            &&& forall|i: int|
                a + b <= i < a + b + m ==> (#[trigger] r[i]).status == "modified"@ && r[i].path
                    == fs.modified[i - a - b] && r[i].dir_files is None && (r[i].hash == if i
                    < hashes.len() {
                    hashes[i]
                } else {
                    None
                })
        }),
{
    reveal_strlit("added");
    reveal_strlit("removed");
    reveal_strlit("modified");
    assert("added"@.len() == 5 && "removed"@.len() == 7 && "modified"@.len() == 8);
}

/// The record of a step that was passed over says why, and that nothing was done.
pub proof fn law_records_say_why_a_step_was_passed_over(
    step: crate::model::StepView,
    number: usize,
    reason: Text,
)
    ensures
        ({
            let r = passed_over(step, number, reason);
            &&& r.number == number
            &&& r.label == crate::exec::step::label_of(step)
            &&& r.kind == kind_of(step)
            &&& r.outcome == "skipped"@
            &&& r.exit_code is None
            &&& r.env_added.len() == 0
            &&& r.env_changed.len() == 0
            &&& r.env_removed.len() == 0
            &&& r.path_added.len() == 0
            &&& r.files.len() == 0
            &&& !r.files_truncated
            &&& r.failure is None
            &&& r.skip_reason == seq![reason]
        }),
{
}

// ---------------------------------------------------------------------------
// Differences of steps
// ---------------------------------------------------------------------------

/// What a step did to a variable: that it removed it, or else what it changed it
/// to last, or else what it set it to last, or nothing.
pub proof fn law_last_effect_on_a_variable(s: StepView, k: Text)
    ensures
        s.env_removed.contains(k) ==> env_effect(s, k) == Some("removed"@),
        !s.env_removed.contains(k) ==> forall|i: int|
            0 <= i < s.env_changed.len() && (#[trigger] s.env_changed[i]).0 == k && (forall|j: int|
                i < j < s.env_changed.len() ==> (#[trigger] s.env_changed[j]).0 != k) ==> env_effect(
                s,
                k,
            ) == Some("changed to "@ + s.env_changed[i].2),
        !s.env_removed.contains(k) && (forall|j: int|
            0 <= j < s.env_changed.len() ==> (#[trigger] s.env_changed[j]).0 != k) ==> forall|
            i: int,
        |
            0 <= i < s.env_added.len() && (#[trigger] s.env_added[i]).0 == k && (forall|j: int|
                i < j < s.env_added.len() ==> (#[trigger] s.env_added[j]).0 != k) ==> env_effect(
                s,
                k,
            ) == Some("set to "@ + s.env_added[i].1),
        !env_keys(s).contains(k) <==> env_effect(s, k) is None,
        !env_keys(s).contains(k) <==> {
            &&& !s.env_removed.contains(k)
            &&& forall|j: int| 0 <= j < s.env_changed.len() ==> (#[trigger] s.env_changed[j]).0 != k
            &&& forall|j: int| 0 <= j < s.env_added.len() ==> (#[trigger] s.env_added[j]).0 != k
        },
{
    lemma_last_change(s.env_changed, k);
    lemma_last_value(s.env_added, k);
    let keys = env_keys(s);
    if keys.contains(k) {
        let i = choose|i: int| 0 <= i < keys.len() && keys[i] == k;
        if i < s.env_added.len() {
            assert(s.env_added[i].0 == k);
        } else if i < s.env_added.len() + s.env_changed.len() {
            assert(s.env_changed[i - s.env_added.len()].0 == k);
        } else {
            assert(s.env_removed[i - s.env_added.len() - s.env_changed.len()] == k);
        }
    } else {
        assert forall|j: int| 0 <= j < s.env_added.len() implies (#[trigger] s.env_added[j]).0
            != k by {
            assert(keys[j] == s.env_added[j].0);
        }
        assert forall|j: int| 0 <= j < s.env_changed.len() implies (#[trigger] s.env_changed[j]).0
            != k by {
            assert(keys[s.env_added.len() + j] == s.env_changed[j].0);
        }
        if s.env_removed.contains(k) {
            let i = choose|i: int| 0 <= i < s.env_removed.len() && s.env_removed[i] == k;
            assert(keys[s.env_added.len() + s.env_changed.len() + i] == k);
        }
    }
}

proof fn lemma_last_change(v: Seq<(Text, Text, Text)>, k: Text)
    ensures
        forall|i: int|
            0 <= i < v.len() && (#[trigger] v[i]).0 == k && (forall|j: int|
                i < j < v.len() ==> (#[trigger] v[j]).0 != k) ==> last_change(v, k) == Some(v[i].2),
        last_change(v, k) is None <==> forall|j: int|
            0 <= j < v.len() ==> (#[trigger] v[j]).0 != k,
    decreases v.len(),
{
    if v.len() > 0 {
        let d = v.drop_last();
        lemma_last_change(d, k);
        assert forall|i: int|
            0 <= i < v.len() && (#[trigger] v[i]).0 == k && (forall|j: int|
                i < j < v.len() ==> (#[trigger] v[j]).0 != k) implies last_change(v, k) == Some(
            v[i].2,
        ) by {
            if i < d.len() {
                assert(v[v.len() - 1].0 != k);
                assert(d[i].0 == k);
                assert forall|j: int| i < j < d.len() implies (#[trigger] d[j]).0 != k by {
                    assert(v[j].0 != k);
                }
            }
        }
        if last_change(v, k) is None {
            assert forall|j: int| 0 <= j < v.len() implies (#[trigger] v[j]).0 != k by {
                if j < d.len() {
                    assert(d[j].0 != k);
                }
            }
        }
        if forall|j: int| 0 <= j < v.len() ==> (#[trigger] v[j]).0 != k {
            assert(v[v.len() - 1].0 != k);
            assert forall|j: int| 0 <= j < d.len() implies (#[trigger] d[j]).0 != k by {
                assert(v[j].0 != k);
            }
        }
    }
}

proof fn lemma_last_value(v: Seq<(Text, Text)>, k: Text)
    ensures
        forall|i: int|
            0 <= i < v.len() && (#[trigger] v[i]).0 == k && (forall|j: int|
                i < j < v.len() ==> (#[trigger] v[j]).0 != k) ==> last_value(v, k) == Some(v[i].1),
        last_value(v, k) is None <==> forall|j: int|
            0 <= j < v.len() ==> (#[trigger] v[j]).0 != k,
    decreases v.len(),
{
    if v.len() > 0 {
        let d = v.drop_last();
        lemma_last_value(d, k);
        assert forall|i: int|
            0 <= i < v.len() && (#[trigger] v[i]).0 == k && (forall|j: int|
                i < j < v.len() ==> (#[trigger] v[j]).0 != k) implies last_value(v, k) == Some(
            v[i].1,
        ) by {
            if i < d.len() {
                assert(v[v.len() - 1].0 != k);
                assert(d[i].0 == k);
                assert forall|j: int| i < j < d.len() implies (#[trigger] d[j]).0 != k by {
                    assert(v[j].0 != k);
                }
            }
        }
        if last_value(v, k) is None {
            assert forall|j: int| 0 <= j < v.len() implies (#[trigger] v[j]).0 != k by {
                if j < d.len() {
                    assert(d[j].0 != k);
                }
            }
        }
        if forall|j: int| 0 <= j < v.len() ==> (#[trigger] v[j]).0 != k {
            assert(v[v.len() - 1].0 != k);
            assert forall|j: int| 0 <= j < d.len() implies (#[trigger] d[j]).0 != k by {
                assert(v[j].0 != k);
            }
        }
    }
}

/// Whether two steps left a file in the same way, as far as the records tell: with
/// the same status, and with the same content where both have a hash.
pub open spec fn same_file(a: StepView, b: StepView, p: Text) -> bool {
    match (file_state(a.files, p), file_state(b.files, p)) {
        (Some(x), Some(y)) => x.0 == y.0 && (x.1 is Some && y.1 is Some ==> x.1 == y.1),
        (None, None) => true,
        _ => false,
    }
}

/// Two steps show no difference where they ended alike, did the same to every
/// variable and left every file alike, and only there.
pub proof fn law_no_difference_means_alike(a: StepView, b: StepView)
    ensures
        changes_between(a, b).len() == 0 <==> {
            &&& a.outcome == b.outcome
            &&& a.exit_code == b.exit_code
            &&& a.failure == b.failure
            &&& forall|k: Text|
                env_keys(a).contains(k) || env_keys(b).contains(k) ==> text_or(
                    #[trigger] env_effect(a, k),
                    "—"@,
                ) == text_or(env_effect(b, k), "—"@)
            &&& forall|p: Text|
                file_paths(a).contains(p) || file_paths(b).contains(p) ==> #[trigger] same_file(
                    a,
                    b,
                    p,
                )
        },
{
    let ks = sorted_texts(env_keys(a) + env_keys(b));
    let ps = sorted_texts(file_paths(a) + file_paths(b));
    lemma_env_lines(ks, a, b);
    lemma_file_lines(ps, a, b);
    assert forall|p: Text| #[trigger] same_file(a, b, p) <==> file_line(a, b, p) is None by {}
    assert forall|k: Text| ks.contains(k) <==> env_keys(a).contains(k) || env_keys(b).contains(
        k,
    ) by {
        law_sorted_texts(env_keys(a) + env_keys(b), k);
        lemma_either(env_keys(a), env_keys(b), k);
    }
    assert forall|p: Text| ps.contains(p) <==> file_paths(a).contains(p) || file_paths(b).contains(
        p,
    ) by {
        law_sorted_texts(file_paths(a) + file_paths(b), p);
        lemma_either(file_paths(a), file_paths(b), p);
    }
    if changes_between(a, b).len() == 0 {
        assert forall|k: Text|
            env_keys(a).contains(k) || env_keys(b).contains(k) implies text_or(
            #[trigger] env_effect(a, k),
            "—"@,
        ) == text_or(env_effect(b, k), "—"@) by {
            assert(ks.contains(k));
            let i = choose|i: int| 0 <= i < ks.len() && ks[i] == k;
            assert(env_line(a, b, ks[i]) is None);
        }
        assert forall|p: Text|
            file_paths(a).contains(p) || file_paths(b).contains(p) implies #[trigger] same_file(
            a,
            b,
            p,
        ) by {
            assert(ps.contains(p));
            let i = choose|i: int| 0 <= i < ps.len() && ps[i] == p;
            assert(file_line(a, b, ps[i]) is None);
        }
    } else if a.outcome == b.outcome && a.exit_code == b.exit_code && a.failure == b.failure {
        if env_lines(ks, a, b).len() > 0 {
            let i = choose|i: int| 0 <= i < ks.len() && env_line(a, b, #[trigger] ks[i]) is Some;
            assert(ks.contains(ks[i]));
            assert(text_or(env_effect(a, ks[i]), "—"@) != text_or(env_effect(b, ks[i]), "—"@));
        } else {
            assert(file_lines(ps, a, b).len() > 0);
            let i = choose|i: int| 0 <= i < ps.len() && file_line(a, b, #[trigger] ps[i]) is Some;
            assert(ps.contains(ps[i]));
            assert(!same_file(a, b, ps[i]));
        }
    }
}

proof fn lemma_either(a: Seq<Text>, b: Seq<Text>, k: Text)
    ensures
        (a + b).contains(k) <==> a.contains(k) || b.contains(k),
{
    if a.contains(k) {
        let i = choose|i: int| 0 <= i < a.len() && a[i] == k;
        assert((a + b)[i] == k);
    }
    if b.contains(k) {
        let i = choose|i: int| 0 <= i < b.len() && b[i] == k;
        assert((a + b)[a.len() + i] == k);
    }
    if (a + b).contains(k) {
        let i = choose|i: int| 0 <= i < (a + b).len() && (a + b)[i] == k;
        if i < a.len() {
            assert(a[i] == k);
        } else {
            assert(b[i - a.len()] == k);
        }
    }
}

proof fn lemma_env_lines(keys: Seq<Text>, a: StepView, b: StepView)
    ensures
        env_lines(keys, a, b).len() == 0 <==> forall|i: int|
            0 <= i < keys.len() ==> env_line(a, b, #[trigger] keys[i]) is None,
    decreases keys.len(),
{
    if keys.len() > 0 {
        let d = keys.drop_last();
        lemma_env_lines(d, a, b);
        if env_lines(keys, a, b).len() == 0 {
            assert forall|i: int| 0 <= i < keys.len() implies env_line(
                a,
                b,
                #[trigger] keys[i],
            ) is None by {
                if i < d.len() {
                    assert(env_line(a, b, d[i]) is None);
                }
            }
        }
        if forall|i: int| 0 <= i < keys.len() ==> env_line(a, b, #[trigger] keys[i]) is None {
            assert(env_line(a, b, keys[keys.len() - 1]) is None);
            assert forall|i: int| 0 <= i < d.len() implies env_line(
                a,
                b,
                #[trigger] d[i],
            ) is None by {
                assert(env_line(a, b, keys[i]) is None);
            }
        }
    }
}

proof fn lemma_file_lines(paths: Seq<Text>, a: StepView, b: StepView)
    ensures
        file_lines(paths, a, b).len() == 0 <==> forall|i: int|
            0 <= i < paths.len() ==> file_line(a, b, #[trigger] paths[i]) is None,
    decreases paths.len(),
{
    if paths.len() > 0 {
        let d = paths.drop_last();
        lemma_file_lines(d, a, b);
        if file_lines(paths, a, b).len() == 0 {
            assert forall|i: int| 0 <= i < paths.len() implies file_line(
                a,
                b,
                #[trigger] paths[i],
            ) is None by {
                if i < d.len() {
                    assert(file_line(a, b, d[i]) is None);
                }
            }
        }
        if forall|i: int| 0 <= i < paths.len() ==> file_line(a, b, #[trigger] paths[i]) is None {
            assert(file_line(a, b, paths[paths.len() - 1]) is None);
            assert forall|i: int| 0 <= i < d.len() implies file_line(
                a,
                b,
                #[trigger] d[i],
            ) is None by {
                assert(file_line(a, b, paths[i]) is None);
            }
        }
    }
}

/// Each difference is told by a line with what stood on either side.
pub proof fn law_differences_are_told(a: StepView, b: StepView, k: Text)
    ensures
        a.outcome != b.outcome ==> changes_between(a, b).contains(
            "outcome: "@ + a.outcome + " → "@ + b.outcome,
        ),
        a.exit_code != b.exit_code ==> changes_between(a, b).contains(
            "exit: "@ + code_text(a.exit_code) + " → "@ + code_text(b.exit_code),
        ),
        a.failure != b.failure ==> changes_between(a, b).contains(
            "failure: "@ + text_or(a.failure, "none"@) + " → "@ + text_or(b.failure, "none"@),
        ),
        (env_keys(a).contains(k) || env_keys(b).contains(k)) && text_or(env_effect(a, k), "—"@)
            != text_or(env_effect(b, k), "—"@) ==> changes_between(a, b).contains(
            "env "@ + k + ": "@ + text_or(env_effect(a, k), "—"@) + " → "@ + text_or(
                env_effect(b, k),
                "—"@,
            ),
        ),
        (file_paths(a).contains(k) || file_paths(b).contains(k)) ==> (file_line(a, b, k) matches Some(
            l,
        ) ==> changes_between(a, b).contains(l)),
{
    let p1 = line_if(a.outcome != b.outcome, "outcome: "@ + a.outcome + " → "@ + b.outcome);
    let p2 = line_if(
        a.exit_code != b.exit_code,
        "exit: "@ + code_text(a.exit_code) + " → "@ + code_text(b.exit_code),
    );
    let p3 = line_if(
        a.failure != b.failure,
        "failure: "@ + text_or(a.failure, "none"@) + " → "@ + text_or(b.failure, "none"@),
    );
    let ks = sorted_texts(env_keys(a) + env_keys(b));
    let ps = sorted_texts(file_paths(a) + file_paths(b));
    let p4 = env_lines(ks, a, b);
    let p5 = file_lines(ps, a, b);
    let all = changes_between(a, b);
    assert(all =~= p1 + p2 + p3 + p4 + p5);
    if p1.len() > 0 {
        assert(all[0] == p1[0]);
    }
    if p2.len() > 0 {
        assert(all[p1.len() as int] == p2[0]);
    }
    if p3.len() > 0 {
        assert(all[p1.len() + p2.len() as int] == p3[0]);
    }
    if env_keys(a).contains(k) || env_keys(b).contains(k) {
        law_sorted_texts(env_keys(a) + env_keys(b), k);
        lemma_either(env_keys(a), env_keys(b), k);
        if env_line(a, b, k) is Some {
            let x = choose|x: int| 0 <= x < ks.len() && ks[x] == k;
            let i = lemma_env_line_at(ks, a, b, x);
            assert(all[p1.len() + p2.len() + p3.len() + i] == p4[i]);
        }
    }
    if file_paths(a).contains(k) || file_paths(b).contains(k) {
        law_sorted_texts(file_paths(a) + file_paths(b), k);
        lemma_either(file_paths(a), file_paths(b), k);
        if file_line(a, b, k) is Some {
            let x = choose|x: int| 0 <= x < ps.len() && ps[x] == k;
            let i = lemma_file_line_at(ps, a, b, x);
            assert(all[p1.len() + p2.len() + p3.len() + p4.len() + i] == p5[i]);
        }
    }
}

proof fn lemma_env_line_at(keys: Seq<Text>, a: StepView, b: StepView, x: int) -> (i: int)
    requires
        0 <= x < keys.len(),
        env_line(a, b, keys[x]) is Some,
    ensures
        0 <= i < env_lines(keys, a, b).len(),
        env_lines(keys, a, b)[i] == env_line(a, b, keys[x])->Some_0,
    decreases keys.len(),
{
    let d = keys.drop_last();
    if x < d.len() {
        lemma_env_line_at(d, a, b, x)
    } else {
        env_lines(d, a, b).len() as int
    }
}

proof fn lemma_file_line_at(paths: Seq<Text>, a: StepView, b: StepView, x: int) -> (i: int)
    requires
        0 <= x < paths.len(),
        file_line(a, b, paths[x]) is Some,
    ensures
        0 <= i < file_lines(paths, a, b).len(),
        file_lines(paths, a, b)[i] == file_line(a, b, paths[x])->Some_0,
    decreases paths.len(),
{
    let d = paths.drop_last();
    if x < d.len() {
        lemma_file_line_at(d, a, b, x)
    } else {
        file_lines(d, a, b).len() as int
    }
}

/// How a file was left is told by the last change of its path.
pub proof fn law_last_change_of_a_file(files: Seq<FileChangeView>, p: Text)
    ensures
        forall|i: int|
            0 <= i < files.len() && (#[trigger] files[i]).path == p && (forall|j: int|
                i < j < files.len() ==> (#[trigger] files[j]).path != p) ==> file_state(files, p)
                == Some((files[i].status, files[i].hash)),
        file_state(files, p) is None <==> forall|j: int|
            0 <= j < files.len() ==> (#[trigger] files[j]).path != p,
    decreases files.len(),
{
    if files.len() > 0 {
        let d = files.drop_last();
        law_last_change_of_a_file(d, p);
        assert forall|i: int|
            0 <= i < files.len() && (#[trigger] files[i]).path == p && (forall|j: int|
                i < j < files.len() ==> (#[trigger] files[j]).path != p) implies file_state(
            files,
            p,
        ) == Some((files[i].status, files[i].hash)) by {
            if i < d.len() {
                assert(files[files.len() - 1].path != p);
                assert(d[i].path == p);
                assert forall|j: int| i < j < d.len() implies (#[trigger] d[j]).path != p by {
                    assert(files[j].path != p);
                }
            }
        }
        if file_state(files, p) is None {
            assert forall|j: int| 0 <= j < files.len() implies (#[trigger] files[j]).path != p by {
                if j < d.len() {
                    assert(d[j].path != p);
                }
            }
        }
        if forall|j: int| 0 <= j < files.len() ==> (#[trigger] files[j]).path != p {
            assert(files[files.len() - 1].path != p);
            assert forall|j: int| 0 <= j < d.len() implies (#[trigger] d[j]).path != p by {
                assert(files[j].path != p);
            }
        }
    }
}

// ---------------------------------------------------------------------------
// Listing, pruning and collecting
// ---------------------------------------------------------------------------

/// A listing has every run of the current shape, once for each time that it was
/// found, and no other.
pub proof fn law_listings_have_every_current_run(rs: Seq<RunView>, r: RunView)
    ensures
        listed(rs).contains(r) <==> rs.contains(r) && r.format_version == 2,
        listed(rs).len() == rs.filter(|x: RunView| x.format_version == 2).len(),
    decreases rs.len(),
{
    reveal(Seq::filter);
    if rs.len() > 0 {
        let d = rs.drop_last();
        law_listings_have_every_current_run(d, r);
        lemma_with_run_holds(listed(d), rs.last(), r);
        assert(rs =~= d.push(rs.last()));
        if rs.contains(r) {
            let i = choose|i: int| 0 <= i < rs.len() && rs[i] == r;
            if i < d.len() {
                assert(d[i] == r);
            }
        }
        if d.contains(r) {
            let i = choose|i: int| 0 <= i < d.len() && d[i] == r;
            assert(rs[i] == r);
        }
        if r == rs.last() {
            assert(rs[rs.len() - 1] == r);
        }
    }
}

proof fn lemma_with_run_holds(s: Seq<RunView>, x: RunView, r: RunView)
    ensures
        with_run(s, x).contains(r) <==> s.contains(r) || r == x,
        with_run(s, x).len() == s.len() + 1,
    decreases s.len(),
{
    let w = with_run(s, x);
    if s.len() == 0 {
        assert(seq![x][0] == x);
    } else if s.last().started_unix_ms >= x.started_unix_ms {
        assert(w[s.len() as int] == x);
        if s.contains(r) {
            let i = choose|i: int| 0 <= i < s.len() && s[i] == r;
            assert(w[i] == r);
        }
        if w.contains(r) {
            let i = choose|i: int| 0 <= i < w.len() && w[i] == r;
            if i < s.len() {
                assert(s[i] == r);
            }
        }
    } else {
        let d = s.drop_last();
        lemma_with_run_holds(d, x, r);
        let v = with_run(d, x);
        assert(w =~= v.push(s.last()));
        if s.contains(r) || r == x {
            if d.contains(r) || r == x {
                let i = choose|i: int| 0 <= i < v.len() && v[i] == r;
                assert(w[i] == r);
            } else {
                let i = choose|i: int| 0 <= i < s.len() && s[i] == r;
                if i < d.len() {
                    assert(d[i] == r);
                }
                assert(w[v.len() as int] == r);
            }
        }
        if w.contains(r) {
            let i = choose|i: int| 0 <= i < w.len() && w[i] == r;
            if i < v.len() {
                assert(v[i] == r);
                if d.contains(r) {
                    let j = choose|j: int| 0 <= j < d.len() && d[j] == r;
                    assert(s[j] == r);
                }
            } else {
                assert(s[s.len() - 1] == r);
            }
        }
    }
}

/// What is pruned are the oldest directories whose name is a time, as many as
/// there are beyond fifty.
pub proof fn law_pruning_removes_what_is_beyond(names: Seq<Text>)
    ensures
        dated(names).len() == names.filter(
            |n: Text| crate::numtext::unsigned_value(n, u128::MAX as nat) is Some,
        ).len(),
        outdated(names).len() == (if dated(names).len() > 50 {
            dated(names).len() - 50
        } else {
            0
        }),
        forall|i: int|
            0 <= i < outdated(names).len() ==> #[trigger] outdated(names)[i] == dated(names)[i].1,
        forall|i: int|
            0 <= i < dated(names).len() ==> names.contains((#[trigger] dated(names)[i]).1)
                && crate::numtext::unsigned_value(dated(names)[i].1, u128::MAX as nat) == Some(
                dated(names)[i].0,
            ),
{
    lemma_dated_holds(names);
}

proof fn lemma_dated_holds(names: Seq<Text>)
    ensures
        dated(names).len() == names.filter(
            |n: Text| crate::numtext::unsigned_value(n, u128::MAX as nat) is Some,
        ).len(),
        forall|i: int|
            0 <= i < dated(names).len() ==> names.contains((#[trigger] dated(names)[i]).1)
                && crate::numtext::unsigned_value(dated(names)[i].1, u128::MAX as nat) == Some(
                dated(names)[i].0,
            ),
    decreases names.len(),
{
    reveal(Seq::filter);
    if names.len() > 0 {
        let d = names.drop_last();
        lemma_dated_holds(d);
        let last = names.last();
        let old = dated(d);
        let now = dated(names);
        let max = u128::MAX as nat;
        if crate::numtext::unsigned_value(last, max) is Some {
            lemma_with_date_holds(old, crate::numtext::unsigned_value(last, max)->Some_0, last);
        }
        assert forall|i: int| 0 <= i < now.len() implies names.contains((#[trigger] now[i]).1)
            && crate::numtext::unsigned_value(now[i].1, max) == Some(now[i].0) by {
            assert(names[names.len() - 1] == last);
            assert(old.contains(now[i]) || now[i].1 == last);
            if old.contains(now[i]) {
                let j = choose|j: int| 0 <= j < old.len() && old[j] == now[i];
                assert(d.contains(old[j].1));
                let k = choose|k: int| 0 <= k < d.len() && d[k] == old[j].1;
                assert(names[k] == old[j].1);
            }
        }
    }
}

proof fn lemma_with_date_holds(s: Seq<(nat, Text)>, ms: nat, name: Text)
    ensures
        with_date(s, ms, name).len() == s.len() + 1,
        forall|i: int|
            0 <= i < with_date(s, ms, name).len() ==> s.contains(
                #[trigger] with_date(s, ms, name)[i],
            ) || with_date(s, ms, name)[i] == (ms, name),
    decreases s.len(),
{
    let w = with_date(s, ms, name);
    if s.len() > 0 {
        if s.last().0 <= ms {
            assert forall|i: int| 0 <= i < w.len() implies s.contains(#[trigger] w[i]) || w[i] == (
                ms,
                name,
            ) by {
                if i < s.len() {
                    assert(s[i] == w[i]);
                }
            }
        } else {
            let d = s.drop_last();
            lemma_with_date_holds(d, ms, name);
            let v = with_date(d, ms, name);
            assert forall|i: int| 0 <= i < w.len() implies s.contains(#[trigger] w[i]) || w[i] == (
                ms,
                name,
            ) by {
                if i < v.len() {
                    assert(w[i] == v[i]);
                    if d.contains(v[i]) {
                        let j = choose|j: int| 0 <= j < d.len() && d[j] == v[i];
                        assert(s[j] == v[i]);
                    }
                } else {
                    assert(s[s.len() - 1] == w[i]);
                }
            }
        }
    }
}

/// The contents to remove are those, in order, whose hash no change of any step of
/// any job of any run has.
pub proof fn law_collecting_keeps_what_any_run_refers_to(names: Seq<Text>, runs: Seq<RunView>)
    ensures
        unreferenced(names, runs) == names.filter(|n: Text| !refers(runs, n)),
        forall|r: int, j: int, s: int, f: int|
            0 <= r < runs.len() && is_change(runs[r].jobs, j, s, f) ==> (
            #[trigger] runs[r].jobs[j].steps[s].files[f].hash matches Some(h)
                ==> !unreferenced(names, runs).contains(h)),
    decreases names.len(),
{
    reveal(Seq::filter);
    if names.len() > 0 {
        law_collecting_keeps_what_any_run_refers_to(names.drop_last(), runs);
    }
    lemma_unreferenced(names, runs);
}

proof fn lemma_unreferenced(names: Seq<Text>, runs: Seq<RunView>)
    ensures
        forall|i: int|
            0 <= i < unreferenced(names, runs).len() ==> !refers(
                runs,
                #[trigger] unreferenced(names, runs)[i],
            ),
    decreases names.len(),
{
    if names.len() > 0 {
        let d = names.drop_last();
        lemma_unreferenced(d, runs);
        assert forall|i: int| 0 <= i < unreferenced(names, runs).len() implies !refers(
            runs,
            #[trigger] unreferenced(names, runs)[i],
        ) by {
            if i < unreferenced(d, runs).len() {
                assert(unreferenced(names, runs)[i] == unreferenced(d, runs)[i]);
            }
        }
    }
}

/// A content that no run refers to is removed.
pub proof fn law_collecting_removes_the_rest(names: Seq<Text>, runs: Seq<RunView>, k: int)
    requires
        0 <= k < names.len(),
        forall|r: int, j: int, s: int, f: int|
            0 <= r < runs.len() && is_change(runs[r].jobs, j, s, f) ==> (
            #[trigger] runs[r].jobs[j].steps[s].files[f].hash) != Some(names[k]),
    ensures
        unreferenced(names, runs).contains(names[k]),
    decreases names.len(),
{
    assert(!refers(runs, names[k])) by {
        if refers(runs, names[k]) {
            let (r, j, s, f) = choose|r: int, j: int, s: int, f: int|
                0 <= r < runs.len() && 0 <= j < runs[r].jobs.len() && 0 <= s
                    < runs[r].jobs[j].steps.len() && 0 <= f < runs[r].jobs[j].steps[s].files.len()
                    && #[trigger] runs[r].jobs[j].steps[s].files[f].hash == Some(names[k]);
            assert(is_change(runs[r].jobs, j, s, f));
        }
    }
    let d = names.drop_last();
    if k < d.len() {
        law_collecting_removes_the_rest(d, runs, k);
        let u = unreferenced(d, runs);
        let i = choose|i: int| 0 <= i < u.len() && u[i] == names[k];
        assert(unreferenced(names, runs)[i] == names[k]);
    } else {
        assert(unreferenced(names, runs).last() == names[k]);
    }
}

/// How a file differs between two steps: by its status, by its content where both
/// hashes are known, or by being touched by one of them alone.
pub proof fn law_how_a_file_differs(a: StepView, b: StepView, p: Text)
    ensures
        file_state(a.files, p) matches Some(x) ==> (file_state(b.files, p) matches Some(y) ==> {
            &&& x.0 != y.0 ==> file_line(a, b, p) == Some(
                "file "@ + p + ": "@ + x.0 + " → "@ + y.0,
            )
            &&& x.0 == y.0 && x.1 is Some && y.1 is Some && x.1 != y.1 ==> file_line(a, b, p)
                == Some("file "@ + p + ": "@ + x.0 + ", content differs"@)
            &&& x.0 == y.0 && (x.1 is None || y.1 is None || x.1 == y.1) ==> file_line(a, b, p)
                is None
        }),
        file_state(a.files, p) matches Some(x) ==> (file_state(b.files, p) is None ==> file_line(
            a,
            b,
            p,
        ) == Some("file "@ + p + ": "@ + x.0 + " → "@ + "—"@)),
        file_state(a.files, p) is None ==> (file_state(b.files, p) matches Some(y) ==> file_line(
            a,
            b,
            p,
        ) == Some("file "@ + p + ": "@ + "—"@ + " → "@ + y.0)),
        file_state(a.files, p) is None && file_state(b.files, p) is None ==> file_line(
            a,
            b,
            p,
        ) is None,
{
}

/// An exit code is told by its number, and by a dash where there is none.
pub proof fn law_how_codes_are_told(c: Option<i32>, t: Option<Text>, other: Text)
    ensures
        c matches Some(x) ==> code_text(c) == crate::numtext::int_text(x as int),
        c is None ==> code_text(c) == "—"@,
        t matches Some(x) ==> text_or(t, other) == x,
        t is None ==> text_or(t, other) == other,
{
}

/// Recordings lie under the cache directory of the home directory, and nowhere
/// where there is none.
pub proof fn law_where_recordings_lie(home: Option<Text>, sub: Text)
    ensures
        home matches Some(h) ==> crate::record::own_dir(home, sub) == Ok::<Text, Text>(
            crate::paths::path_join(crate::paths::path_join(h, ".cache/stepci"@), sub),
        ),
        home is None ==> crate::record::own_dir(home, sub) == Err::<Text, Text>(
            "no HOME directory for the stepci cache"@,
        ),
{
}

} // verus!
