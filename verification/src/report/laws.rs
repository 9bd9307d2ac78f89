//! What the reports on recordings say.

use crate::numtext::decimal;
use crate::record::{changes_between, FileChangeView, JobView, RunView, StepView};
use crate::report::{
    age, all_differing, change_line, changes_shown, compared, content_of, cut_lines, differences,
    differing, failure_lines, file_diff, file_diffs, file_mark, file_shown, first_side, hashes_in,
    icon, job_diff, job_hashes, job_head, job_key, job_lines, jobs_shown, last_file, last_job,
    line_diff, lone_step, outcome_text, padded, pair_lines, place_hashes, places, plural_end,
    run_line, run_shown, runs_compared, runs_shown, second_side, seconds_since, step_env_lines,
    step_file_lines, step_shown, step_total, steps_shown, two_places, unended, ContentView, LineTag,
};
use crate::table::lookup;
use crate::text::Text;
use vstd::prelude::*;

verus! {

// ---------------------------------------------------------------------------
// Times, counts and marks
// ---------------------------------------------------------------------------

/// Times are told in whole seconds, of which none are left over.
pub proof fn law_whole_seconds(now: nat, started: nat)
    ensures
        now <= started ==> seconds_since(now, started) == 0,
        now > started ==> started + 1000 * seconds_since(now, started) <= now < started + 1000 * (
        seconds_since(now, started) + 1),
{
}

/// An age is told in the largest unit that it fills: seconds, minutes, hours or
/// days; one of less than five seconds is just now.
pub proof fn law_ages_are_told_in_the_largest_unit(secs: nat, n: nat)
    ensures
        secs < 5 ==> age(secs) == "just now"@,
        5 <= secs < 60 ==> age(secs) == decimal(secs) + "s ago"@,
        60 <= secs < 3600 && 60 * n <= secs < 60 * (n + 1) ==> age(secs) == decimal(n) + "m ago"@,
        3600 <= secs < 86400 && 3600 * n <= secs < 3600 * (n + 1) ==> age(secs) == decimal(n)
            + "h ago"@,
        86400 <= secs && 86400 * n <= secs < 86400 * (n + 1) ==> age(secs) == decimal(n)
            + "d ago"@,
{
}

/// One thing is told in the singular, a run that ended with zero has passed, and
/// marks tell outcomes and changes.
pub proof fn law_words_and_marks(n: nat, exit: int, t: Text)
    ensures
        n == 1 ==> plural_end(n) == Seq::<char>::empty(),
        n != 1 ==> plural_end(n) == seq!['s'],
        exit == 0 ==> outcome_text(exit) == "✓ passed"@,
        exit != 0 ==> outcome_text(exit) == "✗ failed"@,
        icon("success"@) == "✓"@,
        icon("failure"@) == "✗"@,
        t != "success"@ && t != "failure"@ ==> icon(t) == "⤼"@,
        file_mark("added"@) == "+"@,
        file_mark("removed"@) == "-"@,
        t != "added"@ && t != "removed"@ ==> file_mark(t) == "~"@,
{
    reveal_strlit("");
    reveal_strlit("s");
    reveal_strlit("success");
    reveal_strlit("failure");
    reveal_strlit("added");
    reveal_strlit("removed");
    assert(""@ =~= Seq::empty());
    assert("s"@ =~= seq!['s']);
    assert("success"@[0] == 's' && "failure"@[0] == 'f' && "added"@[0] == 'a' && "removed"@[0]
        == 'r');
}

/// Numbers are padded with spaces to three characters.
pub proof fn law_numbers_are_padded(s: Text)
    ensures
        s.len() >= 3 ==> padded(s) == s,
        s.len() < 3 ==> padded(s).len() == 3,
        padded(s).take(s.len() as int) == s,
        forall|i: int| s.len() <= i < padded(s).len() ==> #[trigger] padded(s)[i] == ' ',
{
    reveal_strlit(" ");
    reveal_strlit("  ");
    reveal_strlit("   ");
    assert(padded(s).take(s.len() as int) =~= s);
}

/// Steps are counted over all jobs.
pub proof fn law_steps_of_all_jobs_count(jobs: Seq<JobView>, j: JobView)
    ensures
        step_total(Seq::empty()) == 0,
        step_total(jobs.push(j)) == step_total(jobs) + j.steps.len(),
{
    assert(jobs.push(j).drop_last() =~= jobs);
}

// ---------------------------------------------------------------------------
// One run
// ---------------------------------------------------------------------------

/// A listing has a line for each run, numbered from one, and says how to open one;
/// where there is none it says so.
pub proof fn law_listings_number_the_runs(rs: Seq<RunView>, now: nat)
    ensures
        rs.len() == 0 ==> runs_shown(rs, now) == seq![
            "No recorded runs yet — run `stepci run <workflow>` first."@,
        ],
        rs.len() > 0 ==> runs_shown(rs, now).len() == rs.len() + 1,
        forall|i: int|
            0 <= i < rs.len() ==> #[trigger] runs_shown(rs, now)[i] == run_line(
                (i + 1) as nat,
                rs[i],
                now,
            ),
{
}

/// A line of a listing has the number, the outcome, the workflow, the age and the
/// numbers of jobs and steps.
pub proof fn law_lines_of_a_listing(number: nat, r: RunView, now: nat)
    ensures
        ({
            let jobs = r.jobs.len();
            let steps = step_total(r.jobs);
            let mark = if r.exit_code == 0 {
                "✓"@
            } else {
                "✗"@
            };
            run_line(number, r, now) == "  #"@ + padded(decimal(number)) + " "@ + mark + "  "@ + (
            r.workflow + "  ("@ + age(seconds_since(now, r.started_unix_ms as nat)) + ", "@) + (
            decimal(jobs) + " job"@ + plural_end(jobs) + ", "@) + (decimal(steps) + " step"@
                + plural_end(steps) + ")"@)
        }),
{
}

/// A step is shown by its mark, its number and its label, then what it failed of,
/// what it did to the environment and to files; of a skipped step the reasons.
pub proof fn law_how_a_step_is_shown(s: StepView)
    ensures
        step_shown(s)[0] == "  "@ + icon(s.outcome) + " step "@ + decimal(s.number as nat) + (": "@
            + s.label),
        s.outcome == "skipped"@ ==> forall|i: int|
            0 <= i < s.skip_reason.len() ==> step_shown(s)[i + 1] == "      "@
                + #[trigger] s.skip_reason[i],
        s.outcome != "skipped"@ ==> step_shown(s).skip(1) == failure_lines(s.failure)
            + step_env_lines(s) + step_file_lines(s) + cut_lines(s.files_truncated),
        s.failure matches Some(t) ==> failure_lines(s.failure) == seq!["      ↳ "@ + t],
        s.failure is None ==> failure_lines(s.failure).len() == 0,
        s.files_truncated ==> cut_lines(s.files_truncated).len() == 1,
        !s.files_truncated ==> cut_lines(s.files_truncated).len() == 0,
{
    if s.outcome != "skipped"@ {
        assert(step_shown(s).skip(1) =~= failure_lines(s.failure) + step_env_lines(s)
            + step_file_lines(s) + cut_lines(s.files_truncated));
    }
}

/// What a step did to the environment is shown in order: what came, what changed,
/// what went, and what came to the path; nothing is where it did nothing.
pub proof fn law_how_variables_are_shown(s: StepView)
    ensures
        s.env_added.len() == 0 && s.env_changed.len() == 0 && s.env_removed.len() == 0
            && s.path_added.len() == 0 ==> step_env_lines(s).len() == 0,
        s.env_added.len() + s.env_changed.len() + s.env_removed.len() + s.path_added.len() > 0 ==> ({
            let r = step_env_lines(s);
            let a = s.env_added.len() as int;
            let b = a + s.env_changed.len();
            let c = b + s.env_removed.len();
            &&& r.len() == 1 + c + s.path_added.len()
            &&& r[0] == "    env:"@
            &&& forall|i: int|
                0 <= i < a ==> r[1 + i] == "      + "@ + (#[trigger] s.env_added[i]).0 + " = "@
                    + s.env_added[i].1
            &&& forall|i: int|
                0 <= i < s.env_changed.len() ==> r[1 + a + i] == ("      ~ "@ + (
                #[trigger] s.env_changed[i]).0 + ": "@) + s.env_changed[i].1 + " → "@
                    + s.env_changed[i].2
            &&& forall|i: int|
                0 <= i < s.env_removed.len() ==> r[1 + b + i] == "      - "@
                    + #[trigger] s.env_removed[i]
            &&& forall|i: int|
                0 <= i < s.path_added.len() ==> r[1 + c + i] == "      + PATH ⊕ "@
                    + #[trigger] s.path_added[i]
        }),
{
}

/// What a step did to files is shown one by one, a directory with the number of
/// its files.
pub proof fn law_how_files_are_shown(s: StepView, f: FileChangeView)
    ensures
        s.files.len() == 0 ==> step_file_lines(s).len() == 0,
        s.files.len() > 0 ==> step_file_lines(s).len() == s.files.len() + 1 && step_file_lines(s)[0]
            == "    files:"@,
        forall|i: int|
            0 <= i < s.files.len() ==> step_file_lines(s)[i + 1] == file_shown(
                #[trigger] s.files[i],
            ),
        f.dir_files is None ==> file_shown(f) == "      "@ + file_mark(f.status) + " "@ + f.path,
        f.dir_files matches Some(n) ==> file_shown(f) == "      "@ + file_mark(f.status) + " "@ + (
        f.path + "/ ("@ + decimal(n as nat) + " files)"@),
{
}

/// A run is shown by its workflow, its age and its outcome, then every job with
/// its id, combination and name, and under it every step, in order.
pub proof fn law_how_a_run_is_shown(
    r: RunView,
    now: nat,
    jobs: Seq<JobView>,
    j: JobView,
    steps: Seq<StepView>,
    s: StepView,
)
    ensures
        run_shown(r, now) == seq![
            "● recording of `"@ + r.workflow + "` — "@ + age(
                seconds_since(now, r.started_unix_ms as nat),
            ) + ", "@ + outcome_text(r.exit_code as int),
        ] + jobs_shown(r.jobs),
        jobs_shown(Seq::empty()) == Seq::<Text>::empty(),
        jobs_shown(jobs.push(j)) == jobs_shown(jobs) + (seq![job_head(j)] + steps_shown(j.steps)),
        steps_shown(Seq::empty()) == Seq::<Text>::empty(),
        steps_shown(steps.push(s)) == steps_shown(steps) + step_shown(s),
        j.name matches Some(n) ==> job_head(j) == "\n● job "@ + j.id + j.matrix + " ("@ + (n
            + ")"@),
        j.name is None ==> job_head(j) == "\n● job "@ + j.id + j.matrix + " ("@ + (j.id + ")"@),
{
    assert(jobs.push(j).drop_last() =~= jobs);
    assert(steps.push(s).drop_last() =~= steps);
}

// ---------------------------------------------------------------------------
// Differences of content
// ---------------------------------------------------------------------------

/// Of a difference the lines that came or went are shown, in order, up to forty;
/// more of them are told by one line.
pub proof fn law_changed_lines_are_shown(cs: Seq<(LineTag, Text)>, shown: nat)
    requires
        shown <= 40,
    ensures
        ({
            let ds = cs.filter(|c: (LineTag, Text)| c.0 != LineTag::Equal);
            let room = (40 - shown) as nat;
            let r = changes_shown(cs, shown);
            &&& ds.len() <= room ==> r.len() == ds.len()
            &&& ds.len() > room ==> r.len() == room + 1 && r[room as int]
                == "          … (diff truncated)"@
            &&& forall|i: int|
                0 <= i < ds.len() && i < room ==> #[trigger] r[i] == change_line(ds[i])
        }),
    decreases cs.len(),
{
    let f = |c: (LineTag, Text)| c.0 != LineTag::Equal;
    let ds = cs.filter(f);
    let room = (40 - shown) as nat;
    let r = changes_shown(cs, shown);
    if cs.len() == 0 {
        reveal(Seq::filter);
    } else {
        let t = cs.skip(1);
        lemma_filter_first(cs, f);
        let es = t.filter(f);
        if cs[0].0 == LineTag::Equal {
            law_changed_lines_are_shown(t, shown);
        } else if shown < 40 {
            law_changed_lines_are_shown(t, shown + 1);
            let w = changes_shown(t, shown + 1);
            assert(r =~= seq![change_line(cs[0])] + w);
            assert(ds =~= seq![cs[0]] + es);
            assert forall|i: int| 0 <= i < ds.len() && i < room implies #[trigger] r[i]
                == change_line(ds[i]) by {
                if i > 0 {
                    assert(r[i] == w[i - 1]);
                    assert(ds[i] == es[i - 1]);
                }
            }
        }
    }
}

proof fn lemma_filter_first(
    cs: Seq<(LineTag, Text)>,
    f: spec_fn((LineTag, Text)) -> bool,
)
    requires
        cs.len() > 0,
    ensures
        f(cs[0]) ==> cs.filter(f) == seq![cs[0]] + cs.skip(1).filter(f),
        !f(cs[0]) ==> cs.filter(f) == cs.skip(1).filter(f),
    decreases cs.len(),
{
    reveal(Seq::filter);
    let t = cs.skip(1);
    if cs.len() == 1 {
        assert(cs.drop_last() =~= Seq::empty());
        assert(t =~= Seq::empty());
        assert(cs.drop_last().filter(f) =~= Seq::empty());
        assert(t.filter(f) =~= Seq::empty());
        if f(cs[0]) {
            assert(cs.filter(f) =~= seq![cs[0]] + t.filter(f));
        }
    } else {
        let d = cs.drop_last();
        lemma_filter_first(d, f);
        assert(d.skip(1) =~= t.drop_last());
        assert(t.last() == cs.last());
        assert(d[0] == cs[0]);
        if f(cs[0]) {
            assert(cs.filter(f) =~= seq![cs[0]] + t.filter(f));
        } else {
            assert(cs.filter(f) =~= t.filter(f));
        }
    }
}

/// A line that went is marked with a minus, one that came with a plus, without the
/// line feed at its end.
pub proof fn law_changed_lines_are_marked(t: Text)
    requires
        t.len() == 0 || t.last() != '\n',
    ensures
        change_line((LineTag::Delete, t.push('\n'))) == "          "@ + "-"@ + " "@ + t,
        change_line((LineTag::Insert, t.push('\n'))) == "          "@ + "+"@ + " "@ + t,
        unended(t) == t,
{
    assert(t.push('\n').drop_last() =~= t);
    reveal_with_fuel(unended, 2);
}

/// The last change of a path counts.
pub proof fn law_last_change_of_a_path(files: Seq<FileChangeView>, path: Text)
    ensures
        forall|i: int|
            0 <= i < files.len() && (#[trigger] files[i]).path == path && (forall|j: int|
                i < j < files.len() ==> (#[trigger] files[j]).path != path) ==> last_file(
                files,
                path,
            ) == Some(files[i]),
        last_file(files, path) is None <==> forall|j: int|
            0 <= j < files.len() ==> (#[trigger] files[j]).path != path,
    decreases files.len(),
{
    if files.len() > 0 {
        let d = files.drop_last();
        law_last_change_of_a_path(d, path);
        assert forall|i: int|
            0 <= i < files.len() && (#[trigger] files[i]).path == path && (forall|j: int|
                i < j < files.len() ==> (#[trigger] files[j]).path != path) implies last_file(
            files,
            path,
        ) == Some(files[i]) by {
            if i < d.len() {
                assert(files[files.len() - 1].path != path);
                assert(d[i].path == path);
                assert forall|j: int| i < j < d.len() implies (#[trigger] d[j]).path != path by {
                    assert(files[j].path != path);
                }
            }
        }
        if last_file(files, path) is None {
            assert forall|j: int| 0 <= j < files.len() implies (#[trigger] files[j]).path
                != path by {
                if j < d.len() {
                    assert(d[j].path != path);
                }
            }
        }
        if forall|j: int| 0 <= j < files.len() ==> (#[trigger] files[j]).path != path {
            assert(files[files.len() - 1].path != path);
            assert forall|j: int| 0 <= j < d.len() implies (#[trigger] d[j]).path != path by {
                assert(files[j].path != path);
            }
        }
    }
}

/// A file differs where the other step left the same path with another hash.
pub proof fn law_files_differ_by_their_hash(f: FileChangeView, other: Seq<FileChangeView>)
    ensures
        differing(f, other) is Some <==> {
            &&& last_file(other, f.path) is Some
            &&& f.hash is Some
            &&& last_file(other, f.path)->Some_0.hash is Some
            &&& last_file(other, f.path)->Some_0.hash != f.hash
        },
        differing(f, other) matches Some(d) ==> d.0 == f.path && f.hash == Some(d.1) && last_file(
            other,
            f.path,
        )->Some_0.hash == Some(d.2),
{
}

/// All files of a step are looked at, in order.
pub proof fn law_all_files_are_looked_at(
    files: Seq<FileChangeView>,
    f: FileChangeView,
    other: Seq<FileChangeView>,
)
    ensures
        all_differing(Seq::empty(), other) == Seq::<(Text, Text, Text)>::empty(),
        differing(f, other) matches Some(d) ==> all_differing(files.push(f), other)
            == all_differing(files, other).push(d),
        differing(f, other) is None ==> all_differing(files.push(f), other) == all_differing(
            files,
            other,
        ),
{
    assert(files.push(f).drop_last() =~= files);
}

/// The difference of a file is shown where both contents are there: line by line
/// where both are text, and by a note otherwise.
pub proof fn law_how_contents_are_compared(
    ds: Seq<(Text, Text, Text)>,
    d: (Text, Text, Text),
    blobs: Seq<(Text, ContentView)>,
)
    ensures
        lookup(blobs, d.1) is None || lookup(blobs, d.2) is None ==> file_diff(d, blobs).len() == 0,
        lookup(blobs, d.1) matches Some(ContentView::Plain(a)) ==> (lookup(blobs, d.2) matches Some(
            ContentView::Plain(b),
        ) ==> file_diff(d, blobs) == seq!["        ─ "@ + d.0 + " ─"@] + changes_shown(
            line_diff(a, b),
            0,
        )),
        lookup(blobs, d.1) is Some && lookup(blobs, d.2) is Some && (lookup(blobs, d.1) == Some(
            ContentView::Binary,
        ) || lookup(blobs, d.2) == Some(ContentView::Binary)) ==> file_diff(d, blobs) == seq![
            "        ─ "@ + d.0 + " ─ (binary content differs)"@,
        ],
        file_diffs(Seq::empty(), blobs) == Seq::<Text>::empty(),
        file_diffs(ds.push(d), blobs) == file_diffs(ds, blobs) + file_diff(d, blobs),
{
    assert(ds.push(d).drop_last() =~= ds);
}

// ---------------------------------------------------------------------------
// Differences of runs
// ---------------------------------------------------------------------------

/// A job of the other run is found by its id and combination, the last where
/// several have them.
pub proof fn law_jobs_are_matched(jobs: Seq<JobView>, key: Text)
    ensures
        forall|i: int|
            0 <= i < jobs.len() && (#[trigger] jobs[i]).id + jobs[i].matrix == key && (forall|
                j: int,
            |
                i < j < jobs.len() ==> (#[trigger] jobs[j]).id + jobs[j].matrix != key) ==> last_job(
                jobs,
                key,
            ) == Some(jobs[i]),
        (forall|j: int|
            0 <= j < jobs.len() ==> (#[trigger] jobs[j]).id + jobs[j].matrix != key) <==> last_job(
            jobs,
            key,
        ) is None,
    decreases jobs.len(),
{
    if jobs.len() > 0 {
        let d = jobs.drop_last();
        law_jobs_are_matched(d, key);
        assert forall|i: int|
            0 <= i < jobs.len() && (#[trigger] jobs[i]).id + jobs[i].matrix == key && (forall|
                j: int,
            |
                i < j < jobs.len() ==> (#[trigger] jobs[j]).id + jobs[j].matrix
                    != key) implies last_job(jobs, key) == Some(jobs[i]) by {
            if i < d.len() {
                assert(jobs[jobs.len() - 1].id + jobs[jobs.len() - 1].matrix != key);
                assert(d[i].id + d[i].matrix == key);
                assert forall|j: int| i < j < d.len() implies (#[trigger] d[j]).id + d[j].matrix
                    != key by {
                    assert(jobs[j].id + jobs[j].matrix != key);
                }
            }
        }
        if last_job(jobs, key) is None {
            assert forall|j: int| 0 <= j < jobs.len() implies (#[trigger] jobs[j]).id
                + jobs[j].matrix != key by {
                if j < d.len() {
                    assert(d[j].id + d[j].matrix != key);
                }
            }
        }
        if forall|j: int|
            0 <= j < jobs.len() ==> (#[trigger] jobs[j]).id + jobs[j].matrix != key {
            assert(jobs[jobs.len() - 1].id + jobs[jobs.len() - 1].matrix != key);
            assert forall|j: int| 0 <= j < d.len() implies (#[trigger] d[j]).id + d[j].matrix
                != key by {
                assert(jobs[j].id + jobs[j].matrix != key);
            }
        }
    }
}

/// Two steps at the same place are told by their number and labels, with what
/// differs under that, and not at all where nothing does.
pub proof fn law_how_steps_are_compared(
    number: nat,
    a: StepView,
    b: StepView,
    blobs: Seq<(Text, ContentView)>,
)
    ensures
        ({
            let changes = changes_between(a, b);
            let content = file_diffs(all_differing(a.files, b.files), blobs);
            let label = if a.label == b.label {
                a.label
            } else {
                a.label + " / "@ + b.label
            };
            let r = pair_lines(number, a, b, blobs);
            &&& r.len() == 0 <==> changes.len() == 0 && content.len() == 0
            &&& changes.len() + content.len() > 0 ==> {
                &&& r.len() == 1 + changes.len() + content.len()
                &&& r[0] == "    step "@ + decimal(number) + ": "@ + label
                &&& forall|i: int|
                    0 <= i < changes.len() ==> r[1 + i] == "        "@ + #[trigger] changes[i]
                &&& forall|i: int|
                    0 <= i < content.len() ==> r[1 + changes.len() + i] == #[trigger] content[i]
            }
        }),
{
}

/// Steps are compared place by place over the longer of the two jobs; a step that
/// has no counterpart is told with the run that it is in.
pub proof fn law_steps_are_compared_by_place(
    n: nat,
    a: Seq<StepView>,
    b: Seq<StepView>,
    runs: (nat, nat),
    blobs: Seq<(Text, ContentView)>,
)
    ensures
        places(0, a, b, runs, blobs) == Seq::<Text>::empty(),
        n < a.len() && n < b.len() ==> places(n + 1, a, b, runs, blobs) == places(
            n,
            a,
            b,
            runs,
            blobs,
        ) + pair_lines(n + 1, a[n as int], b[n as int], blobs),
        b.len() <= n < a.len() ==> places(n + 1, a, b, runs, blobs) == places(
            n,
            a,
            b,
            runs,
            blobs,
        ).push(
            "    step "@ + decimal(n + 1) + ": "@ + a[n as int].label + (" — only in #"@ + decimal(
                runs.0,
            )),
        ),
        a.len() <= n < b.len() ==> places(n + 1, a, b, runs, blobs) == places(
            n,
            a,
            b,
            runs,
            blobs,
        ).push(
            "    step "@ + decimal(n + 1) + ": "@ + b[n as int].label + (" — only in #"@ + decimal(
                runs.1,
            )),
        ),
{
    let p = places(n, a, b, runs, blobs);
    if b.len() <= n < a.len() {
        let l = lone_step(n + 1, a[n as int].label, runs.0);
        assert(p + seq![l] =~= p.push(l));
    }
    if a.len() <= n < b.len() {
        let l = lone_step(n + 1, b[n as int].label, runs.1);
        assert(p + seq![l] =~= p.push(l));
    }
}

/// A job is compared with its counterpart over all steps of either, after a note
/// where their numbers differ; a job without a counterpart is told with its run.
pub proof fn law_how_jobs_are_compared(
    a: JobView,
    others: Seq<JobView>,
    runs: (nat, nat),
    blobs: Seq<(Text, ContentView)>,
)
    ensures
        last_job(others, a.id + a.matrix) is None ==> job_lines(a, others, runs, blobs) == seq![
            "  job "@ + a.id + a.matrix + ": only in #"@ + decimal(runs.0),
        ],
        last_job(others, a.id + a.matrix) matches Some(b) ==> {
            &&& job_diff(a, b, runs, blobs).len() == 0 ==> job_lines(a, others, runs, blobs).len()
                == 0
            &&& job_diff(a, b, runs, blobs).len() > 0 ==> job_lines(a, others, runs, blobs)
                == seq!["  job "@ + a.id + a.matrix + ":"@] + job_diff(a, b, runs, blobs)
            &&& a.steps.len() == b.steps.len() ==> job_diff(a, b, runs, blobs) == places(
                a.steps.len(),
                a.steps,
                b.steps,
                runs,
                blobs,
            )
            &&& a.steps.len() > b.steps.len() ==> job_diff(a, b, runs, blobs) == seq![
                "    (structure differs: "@ + decimal(a.steps.len()) + " steps → "@ + decimal(
                    b.steps.len(),
                ) + " — comparing positionally)"@,
            ] + places(a.steps.len(), a.steps, b.steps, runs, blobs)
            &&& a.steps.len() < b.steps.len() ==> job_diff(a, b, runs, blobs) == seq![
                "    (structure differs: "@ + decimal(a.steps.len()) + " steps → "@ + decimal(
                    b.steps.len(),
                ) + " — comparing positionally)"@,
            ] + places(b.steps.len(), a.steps, b.steps, runs, blobs)
        },
{
    if let Some(b) = last_job(others, job_key(a)) {
        if a.steps.len() == b.steps.len() {
            let p = places(a.steps.len(), a.steps, b.steps, runs, blobs);
            assert(Seq::<Text>::empty() + p =~= p);
        }
    }
}

/// Every job of the first run is compared, in order, and every job that is only in
/// the second is told behind them.
pub proof fn law_all_jobs_are_compared(
    jobs: Seq<JobView>,
    j: JobView,
    others: Seq<JobView>,
    runs: (nat, nat),
    blobs: Seq<(Text, ContentView)>,
)
    ensures
        first_side(Seq::empty(), others, runs, blobs) == Seq::<Text>::empty(),
        first_side(jobs.push(j), others, runs, blobs) == first_side(jobs, others, runs, blobs)
            + job_lines(j, others, runs, blobs),
        second_side(Seq::empty(), others, runs.1) == Seq::<Text>::empty(),
        last_job(others, j.id + j.matrix) is None ==> second_side(jobs.push(j), others, runs.1)
            == second_side(jobs, others, runs.1).push(
            "  job "@ + j.id + j.matrix + ": only in #"@ + decimal(runs.1),
        ),
        last_job(others, j.id + j.matrix) is Some ==> second_side(jobs.push(j), others, runs.1)
            == second_side(jobs, others, runs.1),
{
    assert(jobs.push(j).drop_last() =~= jobs);
}

/// The differences of two runs are that of their ends, those of the jobs of the
/// first and the jobs that only the second has; where there are none it is said.
pub proof fn law_how_runs_are_compared(
    a: RunView,
    b: RunView,
    runs: (nat, nat),
    now: nat,
    blobs: Seq<(Text, ContentView)>,
)
    ensures
        a.exit_code == b.exit_code ==> differences(a, b, runs, blobs) == first_side(
            a.jobs,
            b.jobs,
            runs,
            blobs,
        ) + second_side(b.jobs, a.jobs, runs.1),
        a.exit_code != b.exit_code ==> differences(a, b, runs, blobs).skip(1) == first_side(
            a.jobs,
            b.jobs,
            runs,
            blobs,
        ) + second_side(b.jobs, a.jobs, runs.1),
        differences(a, b, runs, blobs).len() == 0 ==> compared(a, b, runs, now, blobs).len() == 2,
        differences(a, b, runs, blobs).len() > 0 ==> compared(a, b, runs, now, blobs).skip(1)
            == differences(a, b, runs, blobs),
        compared(a, b, runs, now, blobs)[0] == "Comparing #"@ + decimal(runs.0) + " ("@ + age(
            seconds_since(now, a.started_unix_ms as nat),
        ) + (") → #"@ + decimal(runs.1) + " ("@) + age(seconds_since(now, b.started_unix_ms as nat))
            + (")   ["@ + b.workflow + "]"@),
{
    let d = differences(a, b, runs, blobs);
    let f = first_side(a.jobs, b.jobs, runs, blobs);
    let s = second_side(b.jobs, a.jobs, runs.1);
    if a.exit_code == b.exit_code {
        assert(d =~= f + s);
    } else {
        assert(d.skip(1) =~= f + s);
    }
    if d.len() > 0 {
        assert(compared(a, b, runs, now, blobs).skip(1) =~= d);
    }
}

/// Runs are compared by their numbers, counted from one and from the newest; the
/// same number twice, and a number that there is no run for, are errors.
pub proof fn law_runs_are_picked_by_number(
    rs: Seq<RunView>,
    runs: (nat, nat),
    now: nat,
    blobs: Seq<(Text, ContentView)>,
)
    ensures
        runs.0 == runs.1 ==> runs_compared(rs, runs, now, blobs) is Err && two_places(
            rs.len(),
            runs,
        ) is Err,
        runs.0 > rs.len() || runs.1 > rs.len() ==> runs_compared(rs, runs, now, blobs) is Err
            && two_places(rs.len(), runs) is Err,
        runs.0 != runs.1 && 1 <= runs.0 <= rs.len() && 1 <= runs.1 <= rs.len() ==> runs_compared(
            rs,
            runs,
            now,
            blobs,
        ) == Ok::<Seq<Text>, Text>(compared(rs[runs.0 - 1], rs[runs.1 - 1], runs, now, blobs))
            && two_places(rs.len(), runs) == Ok::<(int, int), Text>((runs.0 - 1, runs.1 - 1)),
{
}

/// The contents that a comparison needs are those of every file that differs
/// between two steps at the same place of matching jobs.
pub proof fn law_contents_that_are_needed(
    jobs: Seq<JobView>,
    others: Seq<JobView>,
    j: int,
    s: int,
    k: int,
    b: JobView,
)
    requires
        0 <= j < jobs.len(),
        last_job(others, jobs[j].id + jobs[j].matrix) == Some(b),
        0 <= s < jobs[j].steps.len(),
        s < b.steps.len(),
        0 <= k < all_differing(jobs[j].steps[s].files, b.steps[s].files).len(),
    ensures
        job_hashes(jobs, others).contains(
            all_differing(jobs[j].steps[s].files, b.steps[s].files)[k].1,
        ),
        job_hashes(jobs, others).contains(
            all_differing(jobs[j].steps[s].files, b.steps[s].files)[k].2,
        ),
    decreases jobs.len(),
{
    let d = jobs.drop_last();
    let last = jobs.last();
    let x = all_differing(jobs[j].steps[s].files, b.steps[s].files)[k].1;
    let y = all_differing(jobs[j].steps[s].files, b.steps[s].files)[k].2;
    let head = job_hashes(d, others);
    let all = job_hashes(jobs, others);
    if j < d.len() {
        assert(d[j] == jobs[j]);
        law_contents_that_are_needed(d, others, j, s, k, b);
        let p = choose|p: int| 0 <= p < head.len() && head[p] == x;
        assert(all[p] == x);
        let q = choose|q: int| 0 <= q < head.len() && head[q] == y;
        assert(all[q] == y);
    } else {
        let n: nat = if last.steps.len() <= b.steps.len() {
            last.steps.len()
        } else {
            b.steps.len()
        };
        let t = place_hashes(n, last.steps, b.steps);
        lemma_place_hashes(n, last.steps, b.steps, s, k);
        assert(all =~= head + t);
        let p = choose|p: int| 0 <= p < t.len() && t[p] == x;
        assert(all[head.len() + p] == x);
        let q = choose|q: int| 0 <= q < t.len() && t[q] == y;
        assert(all[head.len() + q] == y);
    }
}

proof fn lemma_place_hashes(n: nat, a: Seq<StepView>, b: Seq<StepView>, s: int, k: int)
    requires
        0 <= s < n,
        0 <= k < all_differing(a[s].files, b[s].files).len(),
    ensures
        place_hashes(n, a, b).contains(all_differing(a[s].files, b[s].files)[k].1),
        place_hashes(n, a, b).contains(all_differing(a[s].files, b[s].files)[k].2),
    decreases n,
{
    let ds = all_differing(a[s].files, b[s].files);
    let x = ds[k].1;
    let y = ds[k].2;
    let m = (n - 1) as nat;
    let head = place_hashes(m, a, b);
    let all = place_hashes(n, a, b);
    if s < m {
        lemma_place_hashes(m, a, b, s, k);
        let p = choose|p: int| 0 <= p < head.len() && head[p] == x;
        assert(all[p] == x);
        let q = choose|q: int| 0 <= q < head.len() && head[q] == y;
        assert(all[q] == y);
    } else {
        lemma_hashes_in(ds, k);
        let t = hashes_in(ds);
        assert(all =~= head + t);
        assert(all[head.len() + 2 * k] == x);
        assert(all[head.len() + 2 * k + 1] == y);
    }
}

proof fn lemma_hashes_in(ds: Seq<(Text, Text, Text)>, k: int)
    requires
        0 <= k < ds.len(),
    ensures
        hashes_in(ds).len() == 2 * ds.len(),
        hashes_in(ds)[2 * k] == ds[k].1,
        hashes_in(ds)[2 * k + 1] == ds[k].2,
    decreases ds.len(),
{
    let d = ds.drop_last();
    if k < d.len() {
        lemma_hashes_in(d, k);
    } else if d.len() > 0 {
        lemma_hashes_in(d, 0);
    } else {
        assert(hashes_in(d).len() == 0);
    }
}

/// A stored content is text where it is valid, and is not read where it is larger
/// than what is stored.
pub proof fn law_how_contents_are_read(bytes: Seq<u8>)
    ensures
        bytes.len() > 26_214_400 ==> content_of(bytes) is None,
        bytes.len() <= 26_214_400 && vstd::utf8::valid_utf8(bytes) ==> content_of(bytes) == Some(
            ContentView::Plain(vstd::utf8::decode_utf8(bytes)),
        ),
        bytes.len() <= 26_214_400 && !vstd::utf8::valid_utf8(bytes) ==> content_of(bytes) == Some(
            ContentView::Binary,
        ),
{
}

/// All line ends at the end of a changed line are taken off, and nothing else.
pub proof fn law_line_ends_are_taken_off(s: Text)
    ensures
        unended(s).len() <= s.len(),
        unended(s) == s.take(unended(s).len() as int),
        unended(s).len() > 0 ==> unended(s).last() != '\n',
        forall|i: int| unended(s).len() <= i < s.len() ==> s[i] == '\n',
    decreases s.len(),
{
    if s.len() > 0 && s.last() == '\n' {
        law_line_ends_are_taken_off(s.drop_last());
        let n = unended(s).len() as int;
        assert(s.drop_last().take(n) == s.take(n));
        assert forall|i: int| n <= i < s.len() implies s[i] == '\n' by {
            if i < s.len() - 1 {
                assert(s.drop_last()[i] == s[i]);
            }
        }
    }
}

} // verus!
