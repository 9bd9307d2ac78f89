//! What is said of recorded runs: the list of them, one in full, and how two
//! differ.

pub mod laws;

use crate::numtext::{decimal, nat_text, usize_text};
use crate::record::{
    change_views, changes_between, job_views, run_views, step_changes, step_views, FileChange,
    FileChangeView, JobRecord, JobView, RunRecord, RunView, StepRecord, StepView, MAX_HASH_BYTES,
};
use crate::table::{find_entry, lookup, view_entries};
use crate::text::{chars_of, concat2, concat3, concat4, concat5, slice_text, str_eq, texts, Text};
use similar::{ChangeTag, TextDiff};
use vstd::prelude::*;
use vstd::utf8::{decode_utf8, pop_first_scalar, valid_utf8};

verus! {

/// How many changed lines of a file are shown.
pub const MAX_LINES: usize = 40;

// ---------------------------------------------------------------------------
// Words and numbers
// ---------------------------------------------------------------------------

/// The ending of a word for a number of things.
pub open spec fn plural_end(n: nat) -> Text {
    if n == 1 {
        ""@
    } else {
        "s"@
    }
}

/// The ending of a word for a number of things.
pub fn plural(n: u128) -> (r: &'static str)
    ensures
        r@ == plural_end(n as nat),
{
    if n == 1 {
        ""
    } else {
        "s"
    }
}

/// How a run ended.
pub open spec fn outcome_text(exit: int) -> Text {
    if exit == 0 {
        "✓ passed"@
    } else {
        "✗ failed"@
    }
}

/// How a run ended.
pub fn outcome_word(exit: i32) -> (r: &'static str)
    ensures
        r@ == outcome_text(exit as int),
{
    if exit == 0 {
        "✓ passed"
    } else {
        "✗ failed"
    }
}

/// The seconds between two times in milliseconds; a time to come is now.
pub open spec fn seconds_since(now: nat, started: nat) -> nat {
    if now <= started {
        0
    } else {
        ((now - started) / 1000) as nat
    }
}

/// How long ago something was, coarsely.
pub open spec fn age(secs: nat) -> Text {
    if secs <= 4 {
        "just now"@
    } else if secs <= 59 {
        decimal(secs) + "s ago"@
    } else if secs <= 3599 {
        decimal(secs / 60) + "m ago"@
    } else if secs <= 86399 {
        decimal(secs / 3600) + "h ago"@
    } else {
        decimal(secs / 86400) + "d ago"@
    }
}

/// A number in decimal.
fn number_text(n: u128) -> (r: String)
    ensures
        r@ == decimal(n as nat),
{
    nat_text(n, 10)
}

/// How long ago a time was, coarsely, given the time now.
pub fn relative_time(now: u128, started_ms: u128) -> (r: String)
    ensures
        r@ == age(seconds_since(now as nat, started_ms as nat)),
{
    let secs: u128 = if now <= started_ms {
        0
    } else {
        (now - started_ms) / 1000
    };
    if secs <= 4 {
        "just now".to_owned()
    } else if secs <= 59 {
        concat2(number_text(secs).as_str(), "s ago")
    } else if secs <= 3599 {
        concat2(number_text(secs / 60).as_str(), "m ago")
    } else if secs <= 86399 {
        concat2(number_text(secs / 3600).as_str(), "h ago")
    } else {
        concat2(number_text(secs / 86400).as_str(), "d ago")
    }
}

/// A text filled up with spaces to a width of three.
pub open spec fn padded(s: Text) -> Text {
    if s.len() >= 3 {
        s
    } else if s.len() == 2 {
        s + " "@
    } else if s.len() == 1 {
        s + "  "@
    } else {
        s + "   "@
    }
}

/// Fill a text up with spaces to a width of three.
fn pad(s: &str) -> (r: String)
    ensures
        r@ == padded(s@),
{
    let n = chars_of(s).len();
    if n >= 3 {
        s.to_owned()
    } else if n == 2 {
        concat2(s, " ")
    } else if n == 1 {
        concat2(s, "  ")
    } else {
        concat2(s, "   ")
    }
}

// ---------------------------------------------------------------------------
// The list of runs
// ---------------------------------------------------------------------------

/// How many steps jobs have.
pub open spec fn step_total(jobs: Seq<JobView>) -> nat
    decreases jobs.len(),
{
    if jobs.len() == 0 {
        0
    } else {
        step_total(jobs.drop_last()) + jobs.last().steps.len()
    }
}

/// How many steps jobs have.
fn count_steps(jobs: &Vec<JobRecord>) -> (r: u128)
    ensures
        r == step_total(job_views(jobs@)),
{
    let ghost all = job_views(jobs@);
    let n = jobs.len();
    let mut total: u128 = 0;
    let mut i: usize = 0;
    assert(all.take(0) =~= Seq::empty());
    while i < n
        invariant
            i <= n,
            n == jobs@.len(),
            all == job_views(jobs@),
            total == step_total(all.take(i as int)),
            total <= i * 0x1_0000_0000_0000_0000,
        decreases n - i,
    {
        assert(all.take(i + 1).drop_last() =~= all.take(i as int));
        assert(all.take(i + 1).last() == jobs@[i as int]@);
        let k = jobs[i].steps.len();
        assert(total + k <= (i + 1) * 0x1_0000_0000_0000_0000);
        assert((i + 1) * 0x1_0000_0000_0000_0000
            <= 0x1_0000_0000_0000_0000 * 0x1_0000_0000_0000_0000) by (nonlinear_arith)
            requires
                i + 1 <= 0x1_0000_0000_0000_0000,
        ;
        total = total + k as u128;
        i += 1;
    }
    assert(all.take(n as int) =~= all);
    total
}

/// A run in the list.
pub open spec fn run_line(number: nat, r: RunView, now: nat) -> Text {
    let jobs = r.jobs.len();
    let steps = step_total(r.jobs);
    ("  #"@ + padded(decimal(number)) + " "@) + (if r.exit_code == 0 {
        "✓"@
    } else {
        "✗"@
    }) + "  "@ + (r.workflow + "  ("@ + age(seconds_since(now, r.started_unix_ms as nat)) + ", "@)
        + (decimal(jobs) + " job"@ + plural_end(jobs) + ", "@) + (decimal(steps) + " step"@
        + plural_end(steps) + ")"@)
}

/// The lines of the list, without the last.
pub open spec fn run_lines(rs: Seq<RunView>, now: nat) -> Seq<Text> {
    Seq::new(rs.len(), |i: int| run_line((i + 1) as nat, rs[i], now))
}

/// The list of runs.
pub open spec fn runs_shown(rs: Seq<RunView>, now: nat) -> Seq<Text> {
    if rs.len() == 0 {
        seq!["No recorded runs yet — run `stepci run <workflow>` first."@]
    } else {
        run_lines(rs, now).push(
            "\nRe-open one with `stepci show <n>` (default: the most recent)."@,
        )
    }
}

/// A run in the list.
fn show_run_line(number: usize, r: &RunRecord, now: u128) -> (l: String)
    ensures
        l@ == run_line(number as nat, r@, now as nat),
{
    let mark = if r.exit_code == 0 {
        "✓"
    } else {
        "✗"
    };
    let jobs = r.jobs.len() as u128;
    let steps = count_steps(&r.jobs);
    let head = concat3("  #", pad(usize_text(number).as_str()).as_str(), " ");
    let middle = concat4(
        r.workflow.as_str(),
        "  (",
        relative_time(now, r.started_unix_ms).as_str(),
        ", ",
    );
    let a = concat4(number_text(jobs).as_str(), " job", plural(jobs), ", ");
    let b = concat4(number_text(steps).as_str(), " step", plural(steps), ")");
    let front = concat4(head.as_str(), mark, "  ", middle.as_str());
    concat3(front.as_str(), a.as_str(), b.as_str())
}

/// The list of runs, newest first.
pub fn list_runs(runs: &Vec<RunRecord>, now: u128) -> (r: Vec<String>)
    ensures
        texts(r@) == runs_shown(run_views(runs@), now as nat),
{
    let mut out: Vec<String> = Vec::new();
    if runs.len() == 0 {
        out.push("No recorded runs yet — run `stepci run <workflow>` first.".to_owned());
        assert(texts(out@) =~= runs_shown(run_views(runs@), now as nat));
        return out;
    }
    let ghost all = run_lines(run_views(runs@), now as nat);
    let n = runs.len();
    let mut i: usize = 0;
    assert(texts(out@) =~= all.take(0));
    while i < n
        invariant
            i <= n,
            n == runs@.len(),
            all == run_lines(run_views(runs@), now as nat),
            texts(out@) == all.take(i as int),
        decreases n - i,
    {
        let ghost done = texts(out@);
        let t = show_run_line(i + 1, &runs[i], now);
        assert(run_views(runs@)[i as int] == runs@[i as int]@);
        assert(all[i as int] == t@);
        out.push(t);
        assert(texts(out@) =~= done.push(t@));
        assert(texts(out@) =~= all.take(i + 1));
        i += 1;
    }
    assert(all.take(n as int) =~= all);
    out.push("\nRe-open one with `stepci show <n>` (default: the most recent).".to_owned());
    assert(texts(out@) =~= runs_shown(run_views(runs@), now as nat));
    out
}

// ---------------------------------------------------------------------------
// One run
// ---------------------------------------------------------------------------

/// The mark of an outcome.
pub open spec fn icon(outcome: Text) -> Text {
    if outcome == "success"@ {
        "✓"@
    } else if outcome == "failure"@ {
        "✗"@
    } else {
        "⤼"@
    }
}

/// Lines with something in front of each.
pub open spec fn indented(mark: Text, v: Seq<Text>) -> Seq<Text> {
    v.map_values(|t: Text| mark + t)
}

/// The variables that came.
pub open spec fn came(v: Seq<(Text, Text)>) -> Seq<Text> {
    v.map_values(|e: (Text, Text)| "      + "@ + e.0 + " = "@ + e.1)
}

/// The variables that changed.
pub open spec fn turned(v: Seq<(Text, Text, Text)>) -> Seq<Text> {
    v.map_values(|e: (Text, Text, Text)| ("      ~ "@ + e.0 + ": "@) + e.1 + " → "@ + e.2)
}

/// The variables of a step changed.
pub open spec fn touches_env(s: StepView) -> bool {
    s.env_added.len() > 0 || s.env_changed.len() > 0 || s.env_removed.len() > 0
        || s.path_added.len() > 0
}

/// What is shown of a step's variables.
pub open spec fn step_env_lines(s: StepView) -> Seq<Text> {
    if !touches_env(s) {
        Seq::empty()
    } else {
        seq!["    env:"@] + came(s.env_added) + turned(s.env_changed) + indented(
            "      - "@,
            s.env_removed,
        ) + indented("      + PATH ⊕ "@, s.path_added)
    }
}

/// The mark of a file's change.
pub open spec fn file_mark(status: Text) -> Text {
    if status == "added"@ {
        "+"@
    } else if status == "removed"@ {
        "-"@
    } else {
        "~"@
    }
}

/// A file's change.
pub open spec fn file_shown(f: FileChangeView) -> Text {
    "      "@ + file_mark(f.status) + " "@ + (match f.dir_files {
        Some(n) => f.path + "/ ("@ + decimal(n as nat) + " files)"@,
        None => f.path,
    })
}

/// What is shown of a step's files.
pub open spec fn step_file_lines(s: StepView) -> Seq<Text> {
    if s.files.len() == 0 {
        Seq::empty()
    } else {
        seq!["    files:"@] + s.files.map_values(|f: FileChangeView| file_shown(f))
    }
}

/// What is shown of a failure.
pub open spec fn failure_lines(f: Option<Text>) -> Seq<Text> {
    match f {
        Some(t) => seq!["      ↳ "@ + t],
        None => Seq::empty(),
    }
}

/// What is shown where a step's files could not all be looked at.
pub open spec fn cut_lines(cut: bool) -> Seq<Text> {
    if cut {
        seq!["    (filesystem diff was skipped: workspace too large)"@]
    } else {
        Seq::empty()
    }
}

/// What is shown of a step.
pub open spec fn step_shown(s: StepView) -> Seq<Text> {
    let head = "  "@ + icon(s.outcome) + " step "@ + decimal(s.number as nat) + (": "@ + s.label);
    if s.outcome == "skipped"@ {
        seq![head] + indented("      "@, s.skip_reason)
    } else {
        seq![head] + failure_lines(s.failure) + step_env_lines(s) + step_file_lines(s) + cut_lines(
            s.files_truncated,
        )
    }
}

/// Add lines with something in front of each.
fn push_indented(out: &mut Vec<String>, mark: &str, v: &Vec<String>)
    ensures
        texts(final(out)@) == texts(old(out)@) + indented(mark@, texts(v@)),
{
    let ghost start = texts(out@);
    let ghost all = indented(mark@, texts(v@));
    let mut i: usize = 0;
    assert(start + all.take(0) =~= texts(out@));
    while i < v.len()
        invariant
            i <= v@.len(),
            all == indented(mark@, texts(v@)),
            texts(out@) == start + all.take(i as int),
        decreases v@.len() - i,
    {
        let ghost done = texts(out@);
        let t = concat2(mark, v[i].as_str());
        assert(texts(v@)[i as int] == v@[i as int]@);
        assert(all[i as int] == t@);
        out.push(t);
        assert(texts(out@) =~= done.push(t@));
        assert(texts(out@) =~= start + all.take(i + 1));
        i += 1;
    }
    assert(all.take(v@.len() as int) =~= all);
}

/// Add what is shown of a step's variables.
fn push_step_env(out: &mut Vec<String>, s: &StepRecord)
    ensures
        texts(final(out)@) == texts(old(out)@) + step_env_lines(s@),
{
    let ghost start = texts(out@);
    if s.env_added.len() == 0 && s.env_changed.len() == 0 && s.env_removed.len() == 0
        && s.path_added.len() == 0 {
        assert(start + Seq::<Text>::empty() =~= start);
        return;
    }
    out.push("    env:".to_owned());
    let ghost h0 = start + seq!["    env:"@];
    assert(texts(out@) =~= h0);
    let ghost a = came(s@.env_added);
    let mut i: usize = 0;
    assert(texts(out@) =~= h0 + a.take(0));
    while i < s.env_added.len()
        invariant
            i <= s.env_added@.len(),
            a == came(s@.env_added),
            texts(out@) == h0 + a.take(i as int),
        decreases s.env_added@.len() - i,
    {
        let ghost done = texts(out@);
        let t = concat4("      + ", s.env_added[i].0.as_str(), " = ", s.env_added[i].1.as_str());
        assert(s@.env_added[i as int] == (s.env_added@[i as int].0@, s.env_added@[i as int].1@));
        assert(a[i as int] == t@);
        out.push(t);
        assert(texts(out@) =~= done.push(t@));
        assert(texts(out@) =~= h0 + a.take(i + 1));
        i += 1;
    }
    assert(a.take(s.env_added@.len() as int) =~= a);
    let ghost h1 = h0 + a;
    let ghost c = turned(s@.env_changed);
    let mut k: usize = 0;
    assert(texts(out@) =~= h1 + c.take(0));
    while k < s.env_changed.len()
        invariant
            k <= s.env_changed@.len(),
            c == turned(s@.env_changed),
            texts(out@) == h1 + c.take(k as int),
        decreases s.env_changed@.len() - k,
    {
        let ghost done = texts(out@);
        let head = concat3("      ~ ", s.env_changed[k].0.as_str(), ": ");
        let t = concat4(
            head.as_str(),
            s.env_changed[k].1.as_str(),
            " → ",
            s.env_changed[k].2.as_str(),
        );
        assert(s@.env_changed[k as int] == (
            s.env_changed@[k as int].0@,
            s.env_changed@[k as int].1@,
            s.env_changed@[k as int].2@,
        ));
        assert(c[k as int] == t@);
        out.push(t);
        assert(texts(out@) =~= done.push(t@));
        assert(texts(out@) =~= h1 + c.take(k + 1));
        k += 1;
    }
    assert(c.take(s.env_changed@.len() as int) =~= c);
    push_indented(out, "      - ", &s.env_removed);
    push_indented(out, "      + PATH ⊕ ", &s.path_added);
    assert(texts(out@) =~= start + step_env_lines(s@));
}

/// A file's change.
fn show_file(f: &FileChange) -> (r: String)
    ensures
        r@ == file_shown(f@),
{
    let mark = if str_eq(f.status.as_str(), "added") {
        "+"
    } else if str_eq(f.status.as_str(), "removed") {
        "-"
    } else {
        "~"
    };
    let name = match f.dir_files {
        Some(n) => concat4(f.path.as_str(), "/ (", usize_text(n).as_str(), " files)"),
        None => f.path.clone(),
    };
    concat4("      ", mark, " ", name.as_str())
}

/// Add what is shown of a step's files.
fn push_step_files(out: &mut Vec<String>, s: &StepRecord)
    ensures
        texts(final(out)@) == texts(old(out)@) + step_file_lines(s@),
{
    let ghost start = texts(out@);
    if s.files.len() == 0 {
        assert(start + Seq::<Text>::empty() =~= start);
        return;
    }
    out.push("    files:".to_owned());
    let ghost h0 = start + seq!["    files:"@];
    assert(texts(out@) =~= h0);
    let ghost a = s@.files.map_values(|f: FileChangeView| file_shown(f));
    let mut i: usize = 0;
    assert(texts(out@) =~= h0 + a.take(0));
    while i < s.files.len()
        invariant
            i <= s.files@.len(),
            a == s@.files.map_values(|f: FileChangeView| file_shown(f)),
            texts(out@) == h0 + a.take(i as int),
        decreases s.files@.len() - i,
    {
        let ghost done = texts(out@);
        let t = show_file(&s.files[i]);
        assert(s@.files[i as int] == s.files@[i as int]@);
        assert(a[i as int] == t@);
        out.push(t);
        assert(texts(out@) =~= done.push(t@));
        assert(texts(out@) =~= h0 + a.take(i + 1));
        i += 1;
    }
    assert(a.take(s.files@.len() as int) =~= a);
    assert(texts(out@) =~= start + step_file_lines(s@));
}

/// What is shown of a step.
pub fn render_step(s: &StepRecord) -> (r: Vec<String>)
    ensures
        texts(r@) == step_shown(s@),
{
    let mark = if str_eq(s.outcome.as_str(), "success") {
        "✓"
    } else if str_eq(s.outcome.as_str(), "failure") {
        "✗"
    } else {
        "⤼"
    };
    let label = concat2(": ", s.label.as_str());
    let head = concat5("  ", mark, " step ", usize_text(s.number).as_str(), label.as_str());
    let mut out: Vec<String> = Vec::new();
    let ghost h = head@;
    out.push(head);
    assert(texts(out@) =~= seq![h]);
    if str_eq(s.outcome.as_str(), "skipped") {
        push_indented(&mut out, "      ", &s.skip_reason);
        return out;
    }
    match &s.failure {
        Some(f) => {
            let t = concat2("      ↳ ", f.as_str());
            out.push(t);
            assert(texts(out@) =~= seq![h] + failure_lines(s@.failure));
        },
        None => {
            assert(texts(out@) =~= seq![h] + failure_lines(s@.failure));
        },
    }
    push_step_env(&mut out, s);
    push_step_files(&mut out, s);
    let ghost before = texts(out@);
    if s.files_truncated {
        out.push("    (filesystem diff was skipped: workspace too large)".to_owned());
        assert(texts(out@) =~= before + cut_lines(true));
    } else {
        assert(before =~= before + cut_lines(false));
    }
    out
}

/// The line that heads a job.
pub open spec fn job_head(j: JobView) -> Text {
    "\n● job "@ + j.id + j.matrix + " ("@ + ((match j.name {
        Some(n) => n,
        None => j.id,
    }) + ")"@)
}

/// What is shown of steps.
pub open spec fn steps_shown(steps: Seq<StepView>) -> Seq<Text>
    decreases steps.len(),
{
    if steps.len() == 0 {
        Seq::empty()
    } else {
        steps_shown(steps.drop_last()) + step_shown(steps.last())
    }
}

/// What is shown of jobs.
pub open spec fn jobs_shown(jobs: Seq<JobView>) -> Seq<Text>
    decreases jobs.len(),
{
    if jobs.len() == 0 {
        Seq::empty()
    } else {
        jobs_shown(jobs.drop_last()) + (seq![job_head(jobs.last())] + steps_shown(
            jobs.last().steps,
        ))
    }
}

/// The line that heads a run.
pub open spec fn run_head(r: RunView, now: nat) -> Text {
    ("● recording of `"@ + r.workflow + "` — "@) + age(
        seconds_since(now, r.started_unix_ms as nat),
    ) + ", "@ + outcome_text(r.exit_code as int)
}

/// A run in full.
pub open spec fn run_shown(r: RunView, now: nat) -> Seq<Text> {
    seq![run_head(r, now)] + jobs_shown(r.jobs)
}

/// Add lines.
fn push_all(out: &mut Vec<String>, add: Vec<String>)
    ensures
        texts(final(out)@) == texts(old(out)@) + texts(add@),
{
    let ghost start = texts(out@);
    let ghost all = texts(add@);
    let mut i: usize = 0;
    assert(start + all.take(0) =~= texts(out@));
    while i < add.len()
        invariant
            i <= add@.len(),
            all == texts(add@),
            texts(out@) == start + all.take(i as int),
        decreases add@.len() - i,
    {
        let ghost done = texts(out@);
        let t = add[i].clone();
        assert(all[i as int] == t@);
        out.push(t);
        assert(texts(out@) =~= done.push(t@));
        assert(texts(out@) =~= start + all.take(i + 1));
        i += 1;
    }
    assert(all.take(add@.len() as int) =~= all);
}

/// Add what is shown of steps.
fn push_steps(out: &mut Vec<String>, steps: &Vec<StepRecord>)
    ensures
        texts(final(out)@) == texts(old(out)@) + steps_shown(step_views(steps@)),
{
    let ghost start = texts(out@);
    let ghost all = step_views(steps@);
    let mut i: usize = 0;
    assert(all.take(0) =~= Seq::empty());
    assert(start + steps_shown(all.take(0)) =~= texts(out@));
    while i < steps.len()
        invariant
            i <= steps@.len(),
            all == step_views(steps@),
            texts(out@) == start + steps_shown(all.take(i as int)),
        decreases steps@.len() - i,
    {
        let ghost done = steps_shown(all.take(i as int));
        assert(all.take(i + 1).drop_last() =~= all.take(i as int));
        assert(all.take(i + 1).last() == steps@[i as int]@);
        push_all(out, render_step(&steps[i]));
        assert(texts(out@) =~= start + (done + step_shown(steps@[i as int]@)));
        i += 1;
    }
    assert(all.take(steps@.len() as int) =~= all);
}

/// A run in full: what each step changed.
pub fn show_run(r: &RunRecord, now: u128) -> (v: Vec<String>)
    ensures
        texts(v@) == run_shown(r@, now as nat),
{
    let mut out: Vec<String> = Vec::new();
    let head = concat3("● recording of `", r.workflow.as_str(), "` — ");
    let line = concat4(
        head.as_str(),
        relative_time(now, r.started_unix_ms).as_str(),
        ", ",
        outcome_word(r.exit_code),
    );
    let ghost h = line@;
    out.push(line);
    let ghost all = r@.jobs;
    let mut i: usize = 0;
    assert(all.take(0) =~= Seq::empty());
    assert(texts(out@) =~= seq![h] + jobs_shown(all.take(0)));
    while i < r.jobs.len()
        invariant
            i <= r.jobs@.len(),
            all == r@.jobs,
            texts(out@) == seq![h] + jobs_shown(all.take(i as int)),
        decreases r.jobs@.len() - i,
    {
        let ghost done = jobs_shown(all.take(i as int));
        let j = &r.jobs[i];
        assert(all.take(i + 1).drop_last() =~= all.take(i as int));
        assert(all.take(i + 1).last() == j@);
        let label = match &j.name {
            Some(n) => concat2(n.as_str(), ")"),
            None => concat2(j.id.as_str(), ")"),
        };
        let t = concat5("\n● job ", j.id.as_str(), j.matrix.as_str(), " (", label.as_str());
        assert(t@ =~= job_head(j@));
        out.push(t);
        assert(texts(out@) =~= seq![h] + done + seq![job_head(j@)]);
        push_steps(&mut out, &j.steps);
        assert(texts(out@) =~= seq![h] + (done + (seq![job_head(j@)] + steps_shown(j@.steps))));
        i += 1;
    }
    assert(all.take(r.jobs@.len() as int) =~= all);
    out
}

/// What is said where there is no such run.
pub fn no_run(n: usize) -> (r: String)
    ensures
        r@ == "no run #"@ + decimal(n as nat) + " — `stepci runs` lists what's recorded"@,
{
    concat3("no run #", usize_text(n).as_str(), " — `stepci runs` lists what's recorded")
}

/// What is said where a run holds no content of a file.
pub fn no_content(path: &str, n: usize) -> (r: String)
    ensures
        r@ == "`"@ + path@ + "` wasn't captured in run #"@ + decimal(n as nat)
            + " (not changed by a step, too large, or a directory)"@,
{
    concat5(
        "`",
        path,
        "` wasn't captured in run #",
        usize_text(n).as_str(),
        " (not changed by a step, too large, or a directory)",
    )
}

// ---------------------------------------------------------------------------
// Line differences
// ---------------------------------------------------------------------------

/// What became of a line.
#[derive(Debug, Clone, Copy, PartialEq, Eq, Structural)]
pub enum LineTag {
    /// It stayed.
    Equal,
    /// It went.
    Delete,
    /// It came.
    Insert,
}

/// A line and what became of it.
#[derive(Debug)]
pub struct LineChange {
    /// What became of it.
    pub tag: LineTag,
    /// The line, with its ending.
    pub text: String,
}

/// Lines over views.
pub open spec fn line_views(v: Seq<LineChange>) -> Seq<(LineTag, Text)> {
    v.map_values(|c: LineChange| (c.tag, c.text@))
}

/// How two texts differ, line by line.
pub uninterp spec fn line_diff(a: Text, b: Text) -> Seq<(LineTag, Text)>;

/// `TextDiff::from_lines` and `iter_all_changes` of `similar`, which set no time
/// limit, so that the lines and their tags depend on the two texts alone. The
/// bound keeps the numbers that it gives to lines within 32 bits.
#[verifier::external_body]
fn line_changes(a: &str, b: &str) -> (r: Vec<LineChange>)
    requires
        a@.len() + b@.len() <= u32::MAX,
    ensures
        line_views(r@) == line_diff(a@, b@),
{
    let diff = TextDiff::from_lines(a, b);
    diff.iter_all_changes().map(|c| LineChange {
        tag: match c.tag() {
            ChangeTag::Equal => LineTag::Equal,
            ChangeTag::Delete => LineTag::Delete,
            ChangeTag::Insert => LineTag::Insert,
        },
        text: c.value().to_string(),
    }).collect()
}

/// A text without the line feeds that end it.
pub open spec fn unended(s: Text) -> Text
    decreases s.len(),
{
    if s.len() > 0 && s.last() == '\n' {
        unended(s.drop_last())
    } else {
        s
    }
}

/// Take the line feeds off the end of a text.
fn strip_newlines(s: &str) -> (r: String)
    ensures
        r@ == unended(s@),
{
    let v = chars_of(s);
    let mut to: usize = v.len();
    assert(v@.take(to as int) =~= s@);
    while to > 0 && v[to - 1] == '\n'
        invariant
            to <= v@.len(),
            unended(v@.take(to as int)) == unended(s@),
        decreases to,
    {
        assert(v@.take(to as int).drop_last() =~= v@.take(to - 1));
        to -= 1;
    }
    let r = slice_text(&v, 0, to);
    assert(r@ =~= v@.take(to as int));
    r
}

/// A changed line as it is shown.
pub open spec fn change_line(c: (LineTag, Text)) -> Text {
    "          "@ + (if c.0 == LineTag::Delete {
        "-"@
    } else {
        "+"@
    }) + " "@ + unended(c.1)
}

/// The changed lines as they are shown, when `shown` have been.
pub open spec fn changes_shown(cs: Seq<(LineTag, Text)>, shown: nat) -> Seq<Text>
    decreases cs.len(),
{
    if cs.len() == 0 {
        Seq::empty()
    } else if cs[0].0 == LineTag::Equal {
        changes_shown(cs.skip(1), shown)
    } else if shown >= MAX_LINES {
        seq!["          … (diff truncated)"@]
    } else {
        seq![change_line(cs[0])] + changes_shown(cs.skip(1), shown + 1)
    }
}

/// Show the changed lines, up to a number of them.
pub fn show_changes(cs: &Vec<LineChange>) -> (r: Vec<String>)
    ensures
        texts(r@) == changes_shown(line_views(cs@), 0),
{
    let ghost all = line_views(cs@);
    let mut out: Vec<String> = Vec::new();
    let mut shown: usize = 0;
    let mut i: usize = 0;
    assert(all.skip(0) =~= all);
    assert(texts(out@) + changes_shown(all, 0) =~= changes_shown(all, 0));
    while i < cs.len()
        invariant
            i <= cs@.len(),
            shown <= MAX_LINES,
            all == line_views(cs@),
            changes_shown(all, 0) == texts(out@) + changes_shown(
                all.skip(i as int),
                shown as nat,
            ),
        decreases cs@.len() - i,
    {
        let ghost done = texts(out@);
        let ghost rest = all.skip(i as int);
        assert(rest[0] == (cs@[i as int].tag, cs@[i as int].text@));
        assert(rest.skip(1) =~= all.skip(i + 1));
        let sign = match cs[i].tag {
            LineTag::Delete => "-",
            LineTag::Insert => "+",
            LineTag::Equal => {
                i += 1;
                continue;
            },
        };
        if shown >= MAX_LINES {
            out.push("          … (diff truncated)".to_owned());
            assert(texts(out@) =~= done + seq!["          … (diff truncated)"@]);
            return out;
        }
        let t = concat4("          ", sign, " ", strip_newlines(cs[i].text.as_str()).as_str());
        out.push(t);
        assert(texts(out@) =~= done.push(t@));
        assert(done + (seq![t@] + changes_shown(all.skip(i + 1), shown as nat + 1)) =~= texts(out@)
            + changes_shown(all.skip(i + 1), shown as nat + 1));
        shown += 1;
        i += 1;
    }
    assert(texts(out@) + Seq::<Text>::empty() =~= texts(out@));
    out
}

// ---------------------------------------------------------------------------
// Content differences
// ---------------------------------------------------------------------------

/// What is stored of a file.
#[derive(Debug)]
pub enum Content {
    /// Text.
    Plain(String),
    /// Something else.
    Binary,
}

/// [`Content`] over views.
#[verifier::ext_equal]
pub enum ContentView {
    /// Text.
    Plain(Text),
    /// Something else.
    Binary,
}

impl View for Content {
    type V = ContentView;

    open spec fn view(&self) -> ContentView {
        match *self {
            Content::Plain(t) => ContentView::Plain(t@),
            Content::Binary => ContentView::Binary,
        }
    }
}

/// What a stored file is: text where it is UTF-8. One larger than a recording
/// stores is no recorded content.
pub open spec fn content_of(bytes: Seq<u8>) -> Option<ContentView> {
    if bytes.len() > MAX_HASH_BYTES {
        None
    } else if valid_utf8(bytes) {
        Some(ContentView::Plain(decode_utf8(bytes)))
    } else {
        Some(ContentView::Binary)
    }
}

/// `String::from_utf8`: the text that bytes encode in UTF-8; nothing where they
/// are not valid UTF-8.
#[verifier::external_body]
fn utf8_text(bytes: Vec<u8>) -> (r: Option<String>)
    ensures
        match r {
            Some(t) => valid_utf8(bytes@) && t@ == decode_utf8(bytes@),
            None => !valid_utf8(bytes@),
        },
{
    String::from_utf8(bytes).ok()
}

/// A text has no more characters than bytes.
proof fn lemma_decoded_len(bytes: Seq<u8>)
    requires
        valid_utf8(bytes),
    ensures
        decode_utf8(bytes).len() <= bytes.len(),
    decreases bytes.len(),
{
    if bytes.len() > 0 {
        lemma_decoded_len(pop_first_scalar(bytes));
    }
}

/// What is stored of a file, given its bytes.
pub fn stored_content(bytes: Vec<u8>) -> (r: Option<Content>)
    ensures
        (match r {
            Some(c) => Some(c@),
            None => None,
        }) == content_of(bytes@),
        r matches Some(Content::Plain(t)) ==> t@.len() <= MAX_HASH_BYTES,
{
    if bytes.len() as u64 > MAX_HASH_BYTES {
        return None;
    }
    proof {
        if valid_utf8(bytes@) {
            lemma_decoded_len(bytes@);
        }
    }
    match utf8_text(bytes) {
        Some(t) => Some(Content::Plain(t)),
        None => Some(Content::Binary),
    }
}

/// What is stored is no larger than what is recorded.
pub open spec fn is_stored(blobs: Seq<(Text, ContentView)>) -> bool {
    forall|i: int|
        0 <= i < blobs.len() ==> ((#[trigger] blobs[i]).1 matches ContentView::Plain(t) ==> t.len()
            <= MAX_HASH_BYTES)
}

/// The last change of a path.
pub open spec fn last_file(files: Seq<FileChangeView>, path: Text) -> Option<FileChangeView>
    decreases files.len(),
{
    if files.len() == 0 {
        None
    } else if files.last().path == path {
        Some(files.last())
    } else {
        last_file(files.drop_last(), path)
    }
}

/// A file that both steps changed, to different content: its path and the two
/// hashes.
pub open spec fn differing(f: FileChangeView, other: Seq<FileChangeView>) -> Option<
    (Text, Text, Text),
> {
    match last_file(other, f.path) {
        None => None,
        Some(g) => match f.hash {
            None => None,
            Some(a) => match g.hash {
                None => None,
                Some(b) => if a == b {
                    None
                } else {
                    Some((f.path, a, b))
                },
            },
        },
    }
}

/// The files that both steps changed, to different content.
pub open spec fn all_differing(files: Seq<FileChangeView>, other: Seq<FileChangeView>) -> Seq<
    (Text, Text, Text),
>
    decreases files.len(),
{
    if files.len() == 0 {
        Seq::empty()
    } else {
        let rest = all_differing(files.drop_last(), other);
        match differing(files.last(), other) {
            Some(d) => rest.push(d),
            None => rest,
        }
    }
}

/// Triples over views.
pub open spec fn triple_views(v: Seq<(String, String, String)>) -> Seq<(Text, Text, Text)> {
    v.map_values(|t: (String, String, String)| (t.0@, t.1@, t.2@))
}

/// What is shown of a file that both steps changed: its changed lines where both
/// contents are text, a note where one is not, and nothing where one is not
/// stored any more.
pub open spec fn file_diff(d: (Text, Text, Text), blobs: Seq<(Text, ContentView)>) -> Seq<Text> {
    match lookup(blobs, d.1) {
        None => Seq::empty(),
        Some(a) => match lookup(blobs, d.2) {
            None => Seq::empty(),
            Some(b) => if a is Plain && b is Plain {
                seq!["        ─ "@ + d.0 + " ─"@] + changes_shown(
                    line_diff(a->Plain_0, b->Plain_0),
                    0,
                )
            } else {
                seq!["        ─ "@ + d.0 + " ─ (binary content differs)"@]
            },
        },
    }
}

/// What is shown of the files that both steps changed.
pub open spec fn file_diffs(ds: Seq<(Text, Text, Text)>, blobs: Seq<(Text, ContentView)>) -> Seq<Text>
    decreases ds.len(),
{
    if ds.len() == 0 {
        Seq::empty()
    } else {
        file_diffs(ds.drop_last(), blobs) + file_diff(ds.last(), blobs)
    }
}

/// The last change of a path.
fn find_file(files: &Vec<FileChange>, path: &str) -> (r: Option<usize>)
    ensures
        match r {
            Some(i) => i < files@.len() && last_file(change_views(files@), path@) == Some(
                files@[i as int]@,
            ),
            None => last_file(change_views(files@), path@) is None,
        },
{
    let ghost all = change_views(files@);
    let mut i: usize = files.len();
    assert(all.take(i as int) =~= all);
    while i > 0
        invariant
            i <= files@.len(),
            all == change_views(files@),
            last_file(all, path@) == last_file(all.take(i as int), path@),
        decreases i,
    {
        assert(all.take(i as int).last() == files@[i - 1]@);
        assert(all.take(i as int).drop_last() =~= all.take(i - 1));
        if str_eq(files[i - 1].path.as_str(), path) {
            return Some(i - 1);
        }
        i -= 1;
    }
    None
}

/// The files that both steps changed, to different content: path and hashes.
pub fn content_changes(a: &StepRecord, b: &StepRecord) -> (r: Vec<(String, String, String)>)
    ensures
        triple_views(r@) == all_differing(a@.files, b@.files),
{
    let ghost all = a@.files;
    let mut out: Vec<(String, String, String)> = Vec::new();
    let mut i: usize = 0;
    assert(all.take(0) =~= Seq::empty());
    assert(triple_views(out@) =~= Seq::empty());
    while i < a.files.len()
        invariant
            i <= a.files@.len(),
            all == a@.files,
            triple_views(out@) == all_differing(all.take(i as int), b@.files),
        decreases a.files@.len() - i,
    {
        let ghost done = triple_views(out@);
        let f = &a.files[i];
        assert(all.take(i + 1).drop_last() =~= all.take(i as int));
        assert(all.take(i + 1).last() == f@);
        match find_file(&b.files, f.path.as_str()) {
            None => {},
            Some(k) => match &f.hash {
                None => {},
                Some(ha) => match &b.files[k].hash {
                    None => {},
                    Some(hb) => {
                        if !str_eq(ha.as_str(), hb.as_str()) {
                            out.push((f.path.clone(), ha.clone(), hb.clone()));
                            assert(triple_views(out@) =~= done.push((f.path@, ha@, hb@)));
                        }
                    },
                },
            },
        }
        i += 1;
    }
    assert(all.take(a.files@.len() as int) =~= all);
    out
}

/// Line differences of the files that both steps changed to different content.
pub fn content_diff_lines(
    a: &StepRecord,
    b: &StepRecord,
    blobs: &Vec<(String, Content)>,
) -> (r: Vec<String>)
    requires
        is_stored(view_entries(blobs@)),
    ensures
        texts(r@) == file_diffs(all_differing(a@.files, b@.files), view_entries(blobs@)),
{
    let ds = content_changes(a, b);
    let ghost all = triple_views(ds@);
    let ghost bv = view_entries(blobs@);
    let mut out: Vec<String> = Vec::new();
    let mut i: usize = 0;
    assert(all.take(0) =~= Seq::empty());
    assert(texts(out@) =~= Seq::empty());
    while i < ds.len()
        invariant
            i <= ds@.len(),
            all == triple_views(ds@),
            bv == view_entries(blobs@),
            is_stored(bv),
            texts(out@) == file_diffs(all.take(i as int), bv),
        decreases ds@.len() - i,
    {
        let ghost done = texts(out@);
        let ghost d = all[i as int];
        assert(d == (ds@[i as int].0@, ds@[i as int].1@, ds@[i as int].2@));
        assert(all.take(i + 1).drop_last() =~= all.take(i as int));
        assert(all.take(i + 1).last() == d);
        assert(done + Seq::<Text>::empty() =~= done);
        match find_entry(blobs, ds[i].1.as_str()) {
            None => {},
            Some(x) => match find_entry(blobs, ds[i].2.as_str()) {
                None => {},
                Some(y) => {
                    proof {
                        assert(bv[x as int] == (blobs@[x as int].0@, blobs@[x as int].1@));
                        assert(bv[y as int] == (blobs@[y as int].0@, blobs@[y as int].1@));
                    }
                    match (&blobs[x].1, &blobs[y].1) {
                        (Content::Plain(ta), Content::Plain(tb)) => {
                            let head = concat3("        ─ ", ds[i].0.as_str(), " ─");
                            let ghost h = head@;
                            out.push(head);
                            assert(texts(out@) =~= done + seq![h]);
                            let shown = show_changes(&line_changes(ta.as_str(), tb.as_str()));
                            push_all(&mut out, shown);
                            assert(texts(out@) =~= done + file_diff(d, bv));
                        },
                        _ => {
                            let t = concat3(
                                "        ─ ",
                                ds[i].0.as_str(),
                                " ─ (binary content differs)",
                            );
                            out.push(t);
                            assert(texts(out@) =~= done + file_diff(d, bv));
                        },
                    }
                },
            },
        }
        i += 1;
    }
    assert(all.take(ds@.len() as int) =~= all);
    out
}

// ---------------------------------------------------------------------------
// Two runs
// ---------------------------------------------------------------------------

/// What a job is found by in another run.
pub open spec fn job_key(j: JobView) -> Text {
    j.id + j.matrix
}

/// The last job with a key.
pub open spec fn last_job(jobs: Seq<JobView>, key: Text) -> Option<JobView>
    decreases jobs.len(),
{
    if jobs.len() == 0 {
        None
    } else if job_key(jobs.last()) == key {
        Some(jobs.last())
    } else {
        last_job(jobs.drop_last(), key)
    }
}

/// The label of two steps.
pub open spec fn pair_label(a: Text, b: Text) -> Text {
    if a == b {
        a
    } else {
        a + " / "@ + b
    }
}

/// What is shown of two steps in the same place.
pub open spec fn pair_lines(
    number: nat,
    a: StepView,
    b: StepView,
    blobs: Seq<(Text, ContentView)>,
) -> Seq<Text> {
    let changes = changes_between(a, b);
    let content = file_diffs(all_differing(a.files, b.files), blobs);
    if changes.len() == 0 && content.len() == 0 {
        Seq::empty()
    } else {
        seq!["    step "@ + decimal(number) + ": "@ + pair_label(a.label, b.label)] + indented(
            "        "@,
            changes,
        ) + content
    }
}

/// What is shown of a step that only one run has.
pub open spec fn lone_step(number: nat, label: Text, run: nat) -> Text {
    "    step "@ + decimal(number) + ": "@ + label + (" — only in #"@ + decimal(run))
}

/// What is shown of the steps in one place.
pub open spec fn place_lines(
    i: int,
    a: Seq<StepView>,
    b: Seq<StepView>,
    runs: (nat, nat),
    blobs: Seq<(Text, ContentView)>,
) -> Seq<Text> {
    if i < a.len() && i < b.len() {
        pair_lines((i + 1) as nat, a[i], b[i], blobs)
    } else if i < a.len() {
        seq![lone_step((i + 1) as nat, a[i].label, runs.0)]
    } else {
        seq![lone_step((i + 1) as nat, b[i].label, runs.1)]
    }
}

/// What is shown of the steps in the first places.
pub open spec fn places(
    n: nat,
    a: Seq<StepView>,
    b: Seq<StepView>,
    runs: (nat, nat),
    blobs: Seq<(Text, ContentView)>,
) -> Seq<Text>
    decreases n,
{
    if n == 0 {
        Seq::empty()
    } else {
        places((n - 1) as nat, a, b, runs, blobs) + place_lines(n - 1, a, b, runs, blobs)
    }
}

/// How many places two lists of steps have.
pub open spec fn longer(a: nat, b: nat) -> nat {
    if a >= b {
        a
    } else {
        b
    }
}

/// What is said where two jobs have not as many steps.
pub open spec fn shape_lines(a: nat, b: nat) -> Seq<Text> {
    if a == b {
        Seq::empty()
    } else {
        seq![
            "    (structure differs: "@ + decimal(a) + " steps → "@ + decimal(b)
                + " — comparing positionally)"@,
        ]
    }
}

/// What is shown of two jobs with the same key.
pub open spec fn job_diff(
    a: JobView,
    b: JobView,
    runs: (nat, nat),
    blobs: Seq<(Text, ContentView)>,
) -> Seq<Text> {
    shape_lines(a.steps.len(), b.steps.len()) + places(
        longer(a.steps.len(), b.steps.len()),
        a.steps,
        b.steps,
        runs,
        blobs,
    )
}

/// What is shown of a job that only one run has.
pub open spec fn lone_job(j: JobView, run: nat) -> Text {
    "  job "@ + j.id + j.matrix + ": only in #"@ + decimal(run)
}

/// What is shown of a job of the first run.
pub open spec fn job_lines(
    a: JobView,
    others: Seq<JobView>,
    runs: (nat, nat),
    blobs: Seq<(Text, ContentView)>,
) -> Seq<Text> {
    match last_job(others, job_key(a)) {
        None => seq![lone_job(a, runs.0)],
        Some(b) => {
            let lines = job_diff(a, b, runs, blobs);
            if lines.len() == 0 {
                Seq::empty()
            } else {
                seq!["  job "@ + a.id + a.matrix + ":"@] + lines
            }
        },
    }
}

/// What is shown of the jobs of the first run.
pub open spec fn first_side(
    jobs: Seq<JobView>,
    others: Seq<JobView>,
    runs: (nat, nat),
    blobs: Seq<(Text, ContentView)>,
) -> Seq<Text>
    decreases jobs.len(),
{
    if jobs.len() == 0 {
        Seq::empty()
    } else {
        first_side(jobs.drop_last(), others, runs, blobs) + job_lines(
            jobs.last(),
            others,
            runs,
            blobs,
        )
    }
}

/// What is shown of the jobs that only the second run has.
pub open spec fn second_side(jobs: Seq<JobView>, others: Seq<JobView>, run: nat) -> Seq<Text>
    decreases jobs.len(),
{
    if jobs.len() == 0 {
        Seq::empty()
    } else {
        let rest = second_side(jobs.drop_last(), others, run);
        if last_job(others, job_key(jobs.last())) is None {
            rest.push(lone_job(jobs.last(), run))
        } else {
            rest
        }
    }
}

/// What is said where two runs ended differently.
pub open spec fn overall_lines(a: int, b: int) -> Seq<Text> {
    if a == b {
        Seq::empty()
    } else {
        seq!["  overall: "@ + outcome_text(a) + " → "@ + outcome_text(b)]
    }
}

/// How two runs differ.
pub open spec fn differences(
    a: RunView,
    b: RunView,
    runs: (nat, nat),
    blobs: Seq<(Text, ContentView)>,
) -> Seq<Text> {
    overall_lines(a.exit_code as int, b.exit_code as int) + first_side(
        a.jobs,
        b.jobs,
        runs,
        blobs,
    ) + second_side(b.jobs, a.jobs, runs.1)
}

/// The line that heads the comparison of two runs.
pub open spec fn compare_head(a: RunView, b: RunView, runs: (nat, nat), now: nat) -> Text {
    ("Comparing #"@ + decimal(runs.0) + " ("@) + age(
        seconds_since(now, a.started_unix_ms as nat),
    ) + (") → #"@ + decimal(runs.1) + " ("@) + age(seconds_since(now, b.started_unix_ms as nat))
        + (")   ["@ + b.workflow + "]"@)
}

/// The comparison of two runs.
pub open spec fn compared(
    a: RunView,
    b: RunView,
    runs: (nat, nat),
    now: nat,
    blobs: Seq<(Text, ContentView)>,
) -> Seq<Text> {
    let d = differences(a, b, runs, blobs);
    seq![compare_head(a, b, runs, now)] + (if d.len() == 0 {
        seq!["  no differences — the runs match (as far as the recording captured)."@]
    } else {
        d
    })
}

/// Where a run stands in the list; they are counted from one.
pub open spec fn run_place(n: nat) -> int {
    if n == 0 {
        0
    } else {
        n - 1
    }
}

/// The comparison of two runs of the list, or why there is none.
pub open spec fn runs_compared(
    rs: Seq<RunView>,
    runs: (nat, nat),
    now: nat,
    blobs: Seq<(Text, ContentView)>,
) -> Result<Seq<Text>, Text> {
    if runs.0 == runs.1 {
        Err("pick two different runs (got #"@ + decimal(runs.0) + " twice)"@)
    } else if run_place(runs.0) >= rs.len() || run_place(runs.1) >= rs.len() {
        Err("not enough recorded runs — `stepci runs` lists what's available"@)
    } else {
        Ok(compared(rs[run_place(runs.0)], rs[run_place(runs.1)], runs, now, blobs))
    }
}

/// What a job is found by in another run.
fn key_of(j: &JobRecord) -> (r: String)
    ensures
        r@ == job_key(j@),
{
    concat2(j.id.as_str(), j.matrix.as_str())
}

/// The last job with a key.
fn find_job(jobs: &Vec<JobRecord>, key: &str) -> (r: Option<usize>)
    ensures
        match r {
            Some(i) => i < jobs@.len() && last_job(job_views(jobs@), key@) == Some(
                jobs@[i as int]@,
            ),
            None => last_job(job_views(jobs@), key@) is None,
        },
{
    let ghost all = job_views(jobs@);
    let mut i: usize = jobs.len();
    assert(all.take(i as int) =~= all);
    while i > 0
        invariant
            i <= jobs@.len(),
            all == job_views(jobs@),
            last_job(all, key@) == last_job(all.take(i as int), key@),
        decreases i,
    {
        assert(all.take(i as int).last() == jobs@[i - 1]@);
        assert(all.take(i as int).drop_last() =~= all.take(i - 1));
        if str_eq(key_of(&jobs[i - 1]).as_str(), key) {
            return Some(i - 1);
        }
        i -= 1;
    }
    None
}

/// What is shown of two steps in the same place.
fn show_pair(
    number: usize,
    a: &StepRecord,
    b: &StepRecord,
    blobs: &Vec<(String, Content)>,
) -> (r: Vec<String>)
    requires
        is_stored(view_entries(blobs@)),
    ensures
        texts(r@) == pair_lines(number as nat, a@, b@, view_entries(blobs@)),
{
    let changes = step_changes(a, b);
    let content = content_diff_lines(a, b, blobs);
    let mut out: Vec<String> = Vec::new();
    if changes.len() == 0 && content.len() == 0 {
        assert(texts(out@) =~= Seq::empty());
        return out;
    }
    let label = if str_eq(a.label.as_str(), b.label.as_str()) {
        a.label.clone()
    } else {
        concat3(a.label.as_str(), " / ", b.label.as_str())
    };
    let head = concat4("    step ", usize_text(number).as_str(), ": ", label.as_str());
    let ghost h = head@;
    out.push(head);
    assert(texts(out@) =~= seq![h]);
    push_indented(&mut out, "        ", &changes);
    push_all(&mut out, content);
    out
}

/// What is shown of a step that only one run has.
fn show_lone_step(number: usize, label: &str, run: usize) -> (r: String)
    ensures
        r@ == lone_step(number as nat, label@, run as nat),
{
    let tail = concat2(" — only in #", usize_text(run).as_str());
    concat5("    step ", usize_text(number).as_str(), ": ", label, tail.as_str())
}

/// What is shown of two jobs with the same key.
fn show_job_diff(
    a: &JobRecord,
    b: &JobRecord,
    a_idx: usize,
    b_idx: usize,
    blobs: &Vec<(String, Content)>,
) -> (r: Vec<String>)
    requires
        is_stored(view_entries(blobs@)),
    ensures
        texts(r@) == job_diff(a@, b@, (a_idx as nat, b_idx as nat), view_entries(blobs@)),
{
    let ghost bv = view_entries(blobs@);
    let ghost runs = (a_idx as nat, b_idx as nat);
    let mut out: Vec<String> = Vec::new();
    let na = a.steps.len();
    let nb = b.steps.len();
    if na != nb {
        let t = concat5(
            "    (structure differs: ",
            usize_text(na).as_str(),
            " steps → ",
            usize_text(nb).as_str(),
            " — comparing positionally)",
        );
        out.push(t);
    }
    let ghost start = shape_lines(na as nat, nb as nat);
    assert(texts(out@) =~= start);
    let n = if na >= nb {
        na
    } else {
        nb
    };
    let mut i: usize = 0;
    assert(texts(out@) =~= start + places(0, a@.steps, b@.steps, runs, bv));
    while i < n
        invariant
            i <= n,
            na == a.steps@.len(),
            nb == b.steps@.len(),
            n == longer(na as nat, nb as nat),
            bv == view_entries(blobs@),
            is_stored(bv),
            runs == (a_idx as nat, b_idx as nat),
            texts(out@) == start + places(i as nat, a@.steps, b@.steps, runs, bv),
        decreases n - i,
    {
        let ghost done = places(i as nat, a@.steps, b@.steps, runs, bv);
        let ghost had = texts(out@);
        if i < na && i < nb {
            assert(a@.steps[i as int] == a.steps@[i as int]@);
            assert(b@.steps[i as int] == b.steps@[i as int]@);
            push_all(&mut out, show_pair(i + 1, &a.steps[i], &b.steps[i], blobs));
        } else if i < na {
            assert(a@.steps[i as int] == a.steps@[i as int]@);
            out.push(show_lone_step(i + 1, a.steps[i].label.as_str(), a_idx));
            assert(texts(out@) =~= had + place_lines(i as int, a@.steps, b@.steps, runs, bv));
        } else {
            assert(b@.steps[i as int] == b.steps@[i as int]@);
            out.push(show_lone_step(i + 1, b.steps[i].label.as_str(), b_idx));
            assert(texts(out@) =~= had + place_lines(i as int, a@.steps, b@.steps, runs, bv));
        }
        assert(texts(out@) =~= start + (done + place_lines(
            i as int,
            a@.steps,
            b@.steps,
            runs,
            bv,
        )));
        i += 1;
    }
    out
}

/// What is shown of a job that only one run has.
fn show_lone_job(j: &JobRecord, run: usize) -> (r: String)
    ensures
        r@ == lone_job(j@, run as nat),
{
    concat5("  job ", j.id.as_str(), j.matrix.as_str(), ": only in #", usize_text(run).as_str())
}

/// Add how two runs differ.
fn push_differences(
    out: &mut Vec<String>,
    a: &RunRecord,
    b: &RunRecord,
    a_idx: usize,
    b_idx: usize,
    blobs: &Vec<(String, Content)>,
)
    requires
        is_stored(view_entries(blobs@)),
    ensures
        texts(final(out)@) == texts(old(out)@) + differences(
            a@,
            b@,
            (a_idx as nat, b_idx as nat),
            view_entries(blobs@),
        ),
{
    let ghost bv = view_entries(blobs@);
    let ghost runs = (a_idx as nat, b_idx as nat);
    let ghost h0 = texts(out@) + overall_lines(a@.exit_code as int, b@.exit_code as int);
    if a.exit_code != b.exit_code {
        let t = concat4(
            "  overall: ",
            outcome_word(a.exit_code),
            " → ",
            outcome_word(b.exit_code),
        );
        out.push(t);
    }
    assert(texts(out@) =~= h0);
    let ghost all = a@.jobs;
    let mut i: usize = 0;
    assert(all.take(0) =~= Seq::empty());
    assert(texts(out@) =~= h0 + first_side(all.take(0), b@.jobs, runs, bv));
    while i < a.jobs.len()
        invariant
            i <= a.jobs@.len(),
            all == a@.jobs,
            bv == view_entries(blobs@),
            is_stored(bv),
            runs == (a_idx as nat, b_idx as nat),
            texts(out@) == h0 + first_side(all.take(i as int), b@.jobs, runs, bv),
        decreases a.jobs@.len() - i,
    {
        let ghost done = first_side(all.take(i as int), b@.jobs, runs, bv);
        let ghost had = texts(out@);
        let j = &a.jobs[i];
        assert(all.take(i + 1).drop_last() =~= all.take(i as int));
        assert(all.take(i + 1).last() == j@);
        match find_job(&b.jobs, key_of(j).as_str()) {
            None => {
                out.push(show_lone_job(j, a_idx));
            },
            Some(k) => {
                let lines = show_job_diff(j, &b.jobs[k], a_idx, b_idx, blobs);
                if lines.len() > 0 {
                    let t = concat4("  job ", j.id.as_str(), j.matrix.as_str(), ":");
                    let ghost head = t@;
                    out.push(t);
                    assert(texts(out@) =~= had + seq![head]);
                    push_all(out, lines);
                }
            },
        }
        assert(texts(out@) =~= had + job_lines(j@, b@.jobs, runs, bv));
        assert(texts(out@) =~= h0 + (done + job_lines(j@, b@.jobs, runs, bv)));
        i += 1;
    }
    assert(all.take(a.jobs@.len() as int) =~= all);
    let ghost h1 = texts(out@);
    let ghost more = b@.jobs;
    let mut k: usize = 0;
    assert(more.take(0) =~= Seq::empty());
    assert(texts(out@) =~= h1 + second_side(more.take(0), a@.jobs, runs.1));
    while k < b.jobs.len()
        invariant
            k <= b.jobs@.len(),
            more == b@.jobs,
            runs == (a_idx as nat, b_idx as nat),
            texts(out@) == h1 + second_side(more.take(k as int), a@.jobs, runs.1),
        decreases b.jobs@.len() - k,
    {
        let ghost had = texts(out@);
        let j = &b.jobs[k];
        assert(more.take(k + 1).drop_last() =~= more.take(k as int));
        assert(more.take(k + 1).last() == j@);
        if find_job(&a.jobs, key_of(j).as_str()).is_none() {
            let t = show_lone_job(j, b_idx);
            out.push(t);
            assert(texts(out@) =~= had.push(t@));
        }
        assert(texts(out@) =~= h1 + second_side(more.take(k + 1), a@.jobs, runs.1));
        k += 1;
    }
    assert(more.take(b.jobs@.len() as int) =~= more);
}

/// Compare two runs.
pub fn compare_runs(
    a: &RunRecord,
    b: &RunRecord,
    a_idx: usize,
    b_idx: usize,
    now: u128,
    blobs: &Vec<(String, Content)>,
) -> (r: Vec<String>)
    requires
        is_stored(view_entries(blobs@)),
    ensures
        texts(r@) == compared(
            a@,
            b@,
            (a_idx as nat, b_idx as nat),
            now as nat,
            view_entries(blobs@),
        ),
{
    let front = concat3("Comparing #", usize_text(a_idx).as_str(), " (");
    let middle = concat3(") → #", usize_text(b_idx).as_str(), " (");
    let end = concat3(")   [", b.workflow.as_str(), "]");
    let head = concat5(
        front.as_str(),
        relative_time(now, a.started_unix_ms).as_str(),
        middle.as_str(),
        relative_time(now, b.started_unix_ms).as_str(),
        end.as_str(),
    );
    let mut out: Vec<String> = Vec::new();
    let ghost h = head@;
    out.push(head);
    assert(texts(out@) =~= seq![h]);
    push_differences(&mut out, a, b, a_idx, b_idx, blobs);
    if out.len() == 1 {
        out.push(
            "  no differences — the runs match (as far as the recording captured).".to_owned(),
        );
    }
    assert(texts(out@) =~= compared(
        a@,
        b@,
        (a_idx as nat, b_idx as nat),
        now as nat,
        view_entries(blobs@),
    ));
    out
}

/// The places of two runs in the list, or why they cannot be compared.
pub open spec fn two_places(count: nat, runs: (nat, nat)) -> Result<(int, int), Text> {
    if runs.0 == runs.1 {
        Err("pick two different runs (got #"@ + decimal(runs.0) + " twice)"@)
    } else if run_place(runs.0) >= count || run_place(runs.1) >= count {
        Err("not enough recorded runs — `stepci runs` lists what's available"@)
    } else {
        Ok((run_place(runs.0), run_place(runs.1)))
    }
}

/// Find the places of two runs in the list, counted from one.
pub fn pick_two(count: usize, a_idx: usize, b_idx: usize) -> (r: Result<(usize, usize), String>)
    ensures
        (match r {
            Ok(p) => Ok((p.0 as int, p.1 as int)),
            Err(e) => Err(e@),
        }) == two_places(count as nat, (a_idx as nat, b_idx as nat)),
{
    if a_idx == b_idx {
        return Err(
            concat3("pick two different runs (got #", usize_text(a_idx).as_str(), " twice)"),
        );
    }
    let a = if a_idx == 0 {
        0
    } else {
        a_idx - 1
    };
    let b = if b_idx == 0 {
        0
    } else {
        b_idx - 1
    };
    if a >= count || b >= count {
        return Err("not enough recorded runs — `stepci runs` lists what's available".to_owned());
    }
    Ok((a, b))
}

/// Compare two runs of the list, by how recent they are.
pub fn diff_runs(
    runs: &Vec<RunRecord>,
    a_idx: usize,
    b_idx: usize,
    now: u128,
    blobs: &Vec<(String, Content)>,
) -> (r: Result<Vec<String>, String>)
    requires
        is_stored(view_entries(blobs@)),
    ensures
        (match r {
            Ok(v) => Ok(texts(v@)),
            Err(e) => Err(e@),
        }) == runs_compared(
            run_views(runs@),
            (a_idx as nat, b_idx as nat),
            now as nat,
            view_entries(blobs@),
        ),
{
    match pick_two(runs.len(), a_idx, b_idx) {
        Err(e) => Err(e),
        Ok((a, b)) => {
            assert(run_views(runs@)[a as int] == runs@[a as int]@);
            assert(run_views(runs@)[b as int] == runs@[b as int]@);
            Ok(compare_runs(&runs[a], &runs[b], a_idx, b_idx, now, blobs))
        },
    }
}

// ---------------------------------------------------------------------------
// The contents that a comparison needs
// ---------------------------------------------------------------------------

/// The hashes in a list of differing files.
pub open spec fn hashes_in(ds: Seq<(Text, Text, Text)>) -> Seq<Text>
    decreases ds.len(),
{
    if ds.len() == 0 {
        Seq::empty()
    } else {
        hashes_in(ds.drop_last()).push(ds.last().1).push(ds.last().2)
    }
}

/// The hashes that steps in the same place need.
pub open spec fn place_hashes(n: nat, a: Seq<StepView>, b: Seq<StepView>) -> Seq<Text>
    decreases n,
{
    if n == 0 {
        Seq::empty()
    } else {
        place_hashes((n - 1) as nat, a, b) + hashes_in(all_differing(a[n - 1].files, b[n - 1].files))
    }
}

/// How many places two lists of steps share.
pub open spec fn shorter(a: nat, b: nat) -> nat {
    if a <= b {
        a
    } else {
        b
    }
}

/// The hashes that jobs need.
pub open spec fn job_hashes(jobs: Seq<JobView>, others: Seq<JobView>) -> Seq<Text>
    decreases jobs.len(),
{
    if jobs.len() == 0 {
        Seq::empty()
    } else {
        job_hashes(jobs.drop_last(), others) + (match last_job(others, job_key(jobs.last())) {
            Some(b) => place_hashes(
                shorter(jobs.last().steps.len(), b.steps.len()),
                jobs.last().steps,
                b.steps,
            ),
            None => Seq::empty(),
        })
    }
}

/// Add the hashes of files that two steps changed to different content.
fn push_hashes(out: &mut Vec<String>, a: &StepRecord, b: &StepRecord)
    ensures
        texts(final(out)@) == texts(old(out)@) + hashes_in(all_differing(a@.files, b@.files)),
{
    let ds = content_changes(a, b);
    let ghost all = triple_views(ds@);
    let ghost start = texts(out@);
    let mut i: usize = 0;
    assert(all.take(0) =~= Seq::empty());
    assert(texts(out@) =~= start + hashes_in(all.take(0)));
    while i < ds.len()
        invariant
            i <= ds@.len(),
            all == triple_views(ds@),
            texts(out@) == start + hashes_in(all.take(i as int)),
        decreases ds@.len() - i,
    {
        let ghost had = texts(out@);
        assert(all.take(i + 1).drop_last() =~= all.take(i as int));
        assert(all.take(i + 1).last() == (
            ds@[i as int].0@,
            ds@[i as int].1@,
            ds@[i as int].2@,
        ));
        let x = ds[i].1.clone();
        let y = ds[i].2.clone();
        out.push(x);
        out.push(y);
        assert(texts(out@) =~= had.push(x@).push(y@));
        assert(texts(out@) =~= start + hashes_in(all.take(i + 1)));
        i += 1;
    }
    assert(all.take(ds@.len() as int) =~= all);
}

/// The hashes of the contents that a comparison of two runs needs.
pub fn wanted_blobs(a: &RunRecord, b: &RunRecord) -> (r: Vec<String>)
    ensures
        texts(r@) == job_hashes(a@.jobs, b@.jobs),
{
    let ghost all = a@.jobs;
    let mut out: Vec<String> = Vec::new();
    let mut i: usize = 0;
    assert(all.take(0) =~= Seq::empty());
    assert(texts(out@) =~= job_hashes(all.take(0), b@.jobs));
    while i < a.jobs.len()
        invariant
            i <= a.jobs@.len(),
            all == a@.jobs,
            texts(out@) == job_hashes(all.take(i as int), b@.jobs),
        decreases a.jobs@.len() - i,
    {
        let ghost had = texts(out@);
        let j = &a.jobs[i];
        assert(all.take(i + 1).drop_last() =~= all.take(i as int));
        assert(all.take(i + 1).last() == j@);
        match find_job(&b.jobs, key_of(j).as_str()) {
            None => {
                assert(had + Seq::<Text>::empty() =~= had);
            },
            Some(k) => {
                let o = &b.jobs[k];
                let na = j.steps.len();
                let nb = o.steps.len();
                let n = if na <= nb {
                    na
                } else {
                    nb
                };
                let mut p: usize = 0;
                assert(had + place_hashes(0, j@.steps, o@.steps) =~= texts(out@));
                while p < n
                    invariant
                        p <= n,
                        n <= j.steps@.len(),
                        n <= o.steps@.len(),
                        texts(out@) == had + place_hashes(p as nat, j@.steps, o@.steps),
                    decreases n - p,
                {
                    let ghost before = place_hashes(p as nat, j@.steps, o@.steps);
                    assert(j@.steps[p as int] == j.steps@[p as int]@);
                    assert(o@.steps[p as int] == o.steps@[p as int]@);
                    push_hashes(&mut out, &j.steps[p], &o.steps[p]);
                    assert(texts(out@) =~= had + (before + hashes_in(
                        all_differing(j@.steps[p as int].files, o@.steps[p as int].files),
                    )));
                    p += 1;
                }
            },
        }
        i += 1;
    }
    assert(all.take(a.jobs@.len() as int) =~= all);
    out
}

// ---------------------------------------------------------------------------
// Laws
// ---------------------------------------------------------------------------

/// No two jobs have the same key, and no step changed a file twice.
pub open spec fn is_plain_record(r: RunView) -> bool {
    &&& forall|i: int, j: int|
        0 <= i < j < r.jobs.len() ==> job_key(#[trigger] r.jobs[i]) != job_key(
            #[trigger] r.jobs[j],
        )
    &&& forall|i: int, k: int|
        0 <= i < r.jobs.len() && 0 <= k < r.jobs[i].steps.len() ==> paths_differ(
            (#[trigger] r.jobs[i].steps[k]).files,
        )
}

/// No path occurs twice.
pub open spec fn paths_differ(files: Seq<FileChangeView>) -> bool {
    forall|i: int, j: int|
        0 <= i < j < files.len() ==> (#[trigger] files[i]).path != (#[trigger] files[j]).path
}

/// Where no path occurs twice, each is found.
proof fn lemma_last_file(files: Seq<FileChangeView>, i: int)
    requires
        paths_differ(files),
        0 <= i < files.len(),
    ensures
        last_file(files, files[i].path) == Some(files[i]),
    decreases files.len(),
{
    if i < files.len() - 1 {
        let d = files.drop_last();
        assert(files[i].path != files[files.len() - 1].path);
        assert(d[i] == files[i]);
        lemma_last_file(d, i);
    }
}

/// A step's files do not differ from themselves.
proof fn lemma_no_differing(files: Seq<FileChangeView>, all: Seq<FileChangeView>)
    requires
        paths_differ(all),
        files.len() <= all.len(),
        files == all.take(files.len() as int),
    ensures
        all_differing(files, all) == Seq::<(Text, Text, Text)>::empty(),
    decreases files.len(),
{
    if files.len() > 0 {
        assert(files.drop_last() =~= all.take(files.len() - 1));
        lemma_no_differing(files.drop_last(), all);
        assert(files.last() == all[files.len() - 1]);
        lemma_last_file(all, files.len() - 1);
    }
}

/// Steps do not differ from themselves.
proof fn lemma_no_places(n: nat, s: Seq<StepView>, runs: (nat, nat), blobs: Seq<(Text, ContentView)>)
    requires
        n <= s.len(),
        forall|k: int| 0 <= k < s.len() ==> paths_differ((#[trigger] s[k]).files),
    ensures
        places(n, s, s, runs, blobs) == Seq::<Text>::empty(),
    decreases n,
{
    if n > 0 {
        lemma_no_places((n - 1) as nat, s, runs, blobs);
        let a = s[n - 1];
        assert(paths_differ(a.files));
        crate::record::law_identical_steps_have_no_changes(a);
        assert(a.files.take(a.files.len() as int) =~= a.files);
        lemma_no_differing(a.files, a.files);
        assert(places(n, s, s, runs, blobs) =~= Seq::<Text>::empty());
    }
}

/// Where no key occurs twice, each is found.
proof fn lemma_last_job(jobs: Seq<JobView>, i: int)
    requires
        forall|i: int, j: int|
            0 <= i < j < jobs.len() ==> job_key(#[trigger] jobs[i]) != job_key(#[trigger] jobs[j]),
        0 <= i < jobs.len(),
    ensures
        last_job(jobs, job_key(jobs[i])) == Some(jobs[i]),
    decreases jobs.len(),
{
    if i < jobs.len() - 1 {
        let d = jobs.drop_last();
        assert(job_key(jobs[i]) != job_key(jobs[jobs.len() - 1]));
        assert(d[i] == jobs[i]);
        assert forall|a: int, b: int| 0 <= a < b < d.len() implies job_key(#[trigger] d[a])
            != job_key(#[trigger] d[b]) by {
            assert(job_key(jobs[a]) != job_key(jobs[b]));
        }
        lemma_last_job(d, i);
    }
}

/// Jobs do not differ from themselves.
proof fn lemma_no_sides(
    n: int,
    r: RunView,
    runs: (nat, nat),
    blobs: Seq<(Text, ContentView)>,
)
    requires
        is_plain_record(r),
        0 <= n <= r.jobs.len(),
    ensures
        first_side(r.jobs.take(n), r.jobs, runs, blobs) == Seq::<Text>::empty(),
        second_side(r.jobs.take(n), r.jobs, runs.1) == Seq::<Text>::empty(),
    decreases n,
{
    if n > 0 {
        lemma_no_sides(n - 1, r, runs, blobs);
        assert(r.jobs.take(n).drop_last() =~= r.jobs.take(n - 1));
        let j = r.jobs[n - 1];
        assert(r.jobs.take(n).last() == j);
        lemma_last_job(r.jobs, n - 1);
        assert forall|k: int| 0 <= k < j.steps.len() implies paths_differ(
            (#[trigger] j.steps[k]).files,
        ) by {
            assert(paths_differ(r.jobs[n - 1].steps[k].files));
        }
        lemma_no_places(j.steps.len(), j.steps, runs, blobs);
        assert(job_diff(j, j, runs, blobs) =~= Seq::<Text>::empty());
        assert(first_side(r.jobs.take(n), r.jobs, runs, blobs) =~= Seq::<Text>::empty());
    }
}

/// Two runs that were recorded alike match, whatever is stored of their files.
pub proof fn law_equal_runs_match(
    r: RunView,
    runs: (nat, nat),
    now: nat,
    blobs: Seq<(Text, ContentView)>,
)
    requires
        is_plain_record(r),
    ensures
        differences(r, r, runs, blobs) == Seq::<Text>::empty(),
        compared(r, r, runs, now, blobs) == seq![
            compare_head(r, r, runs, now),
            "  no differences — the runs match (as far as the recording captured)."@,
        ],
{
    assert(r.jobs.take(r.jobs.len() as int) =~= r.jobs);
    lemma_no_sides(r.jobs.len() as int, r, runs, blobs);
    assert(differences(r, r, runs, blobs) =~= Seq::<Text>::empty());
    assert(compared(r, r, runs, now, blobs) =~= seq![
        compare_head(r, r, runs, now),
        "  no differences — the runs match (as far as the recording captured)."@,
    ]);
}

/// Runs that ended differently are said to.
pub proof fn law_different_ends_are_shown(
    a: RunView,
    b: RunView,
    runs: (nat, nat),
    blobs: Seq<(Text, ContentView)>,
)
    requires
        a.exit_code != b.exit_code,
    ensures
        differences(a, b, runs, blobs).len() > 0,
        differences(a, b, runs, blobs)[0] == "  overall: "@ + outcome_text(a.exit_code as int)
            + " → "@ + outcome_text(b.exit_code as int),
{
}

/// At most so many changed lines are shown, and a note where there are more.
pub proof fn law_changes_are_bounded(cs: Seq<(LineTag, Text)>, shown: nat)
    requires
        shown <= MAX_LINES,
    ensures
        changes_shown(cs, shown).len() <= MAX_LINES - shown + 1,
    decreases cs.len(),
{
    if cs.len() > 0 {
        if cs[0].0 == LineTag::Equal {
            law_changes_are_bounded(cs.skip(1), shown);
        } else if shown < MAX_LINES {
            law_changes_are_bounded(cs.skip(1), shown + 1);
        }
    }
}

/// A skipped step shows nothing but its reason.
pub proof fn law_skipped_steps_show_their_reason(s: StepView)
    requires
        s.outcome == "skipped"@,
    ensures
        step_shown(s).len() == 1 + s.skip_reason.len(),
{
}

} // verus!
