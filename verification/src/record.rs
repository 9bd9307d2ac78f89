//! Recordings of runs: what is kept of a run, and how recordings are listed,
//! compared, traced and pruned.

pub mod laws;

use crate::cache::{home_subdir, under_home};
use crate::diff::{
    entry_views, triples, Entry, EntryView, EnvDiff, EnvDiffView, FsDiff, FsDiffView,
};
use crate::exec::mask::{mask_secrets, without_secrets};
use crate::exec::step::{label_of, step_label};
use crate::model::{Step, StepAction, StepActionView};
use crate::numtext::{decimal, i64_text, int_text, nat_text, read_unsigned, unsigned_value};
use crate::order::{law_sorting_forgets_the_order, sort_texts, sorted_texts};
use crate::paths::{join_path, path_join};
use crate::strmap::{map_entries, StrMap};
use crate::text::{
    clone_opt, clone_strings, concat2, concat4, has_text, opt_eq, opt_text, pairs, str_eq, texts, Text,
};
use vstd::prelude::*;

verus! {

/// The shape of recordings; those of another version are passed over.
pub const FORMAT_VERSION: u32 = 2;

/// Larger files are not hashed: 25 MiB.
pub const MAX_HASH_BYTES: u64 = 26_214_400;

/// How many recent runs are kept.
pub const MAX_RUNS: usize = 50;

/// A whole recorded run.
#[derive(Debug, Clone)]
pub struct RunRecord {
    /// The shape of the recording.
    pub format_version: u32,
    /// The version of the program that made it.
    pub stepci_version: String,
    /// The workflow file, as invoked.
    pub workflow: String,
    /// When the run started, in Unix milliseconds; also its id and sort key.
    pub started_unix_ms: u128,
    /// The exit code of the run.
    pub exit_code: i32,
    /// The jobs, in the order in which they ran.
    pub jobs: Vec<JobRecord>,
}

/// One job (one matrix combination) of a recorded run.
#[derive(Debug, Clone)]
pub struct JobRecord {
    /// The job's id.
    pub id: String,
    /// The job's name.
    pub name: Option<String>,
    /// The matrix suffix, or nothing.
    pub matrix: String,
    /// `success` or `failure`.
    pub status: String,
    /// The steps, in order.
    pub steps: Vec<StepRecord>,
}

/// One step's recorded outcome and changes.
#[derive(Debug, Clone, Default)]
pub struct StepRecord {
    /// The step's number, from 1.
    pub number: usize,
    /// The step's label.
    pub label: String,
    /// What kind of step it is: `run` or `uses:<ref>`.
    pub kind: String,
    /// `success`, `failure` or `skipped`.
    pub outcome: String,
    /// The exit code, where there was one.
    pub exit_code: Option<i32>,
    /// Variables that the step defined.
    pub env_added: Vec<(String, String)>,
    /// Variables that the step redefined.
    pub env_changed: Vec<(String, String, String)>,
    /// Variables that the step removed.
    pub env_removed: Vec<String>,
    /// Directories that the step put in front of `PATH`.
    pub path_added: Vec<String>,
    /// Files that the step changed, with content hashes where there are any.
    pub files: Vec<FileChange>,
    /// The workspace was too large to compare.
    pub files_truncated: bool,
    /// Where the step failed, in a recording that says so.
    pub failure: Option<String>,
    /// For a skipped step, why.
    pub skip_reason: Vec<String>,
}

/// One file that a step added, modified or removed.
#[derive(Debug, Clone, Default)]
pub struct FileChange {
    /// The path in the workspace, or the root of a directory reported as one.
    pub path: String,
    /// `added`, `modified` or `removed`.
    pub status: String,
    /// For a directory, how many files it stands for.
    pub dir_files: Option<usize>,
    /// The content hash, for single files under the size cap.
    pub hash: Option<String>,
}

/// [`FileChange`] over views.
#[verifier::ext_equal]
pub struct FileChangeView {
    /// The path.
    pub path: Text,
    /// What happened to it.
    pub status: Text,
    /// For a directory, how many files it stands for.
    pub dir_files: Option<usize>,
    /// The content hash.
    pub hash: Option<Text>,
}

/// [`StepRecord`] over views.
#[verifier::ext_equal]
pub struct StepView {
    /// The step's number.
    pub number: usize,
    /// The step's label.
    pub label: Text,
    /// What kind of step it is.
    pub kind: Text,
    /// How it ended.
    pub outcome: Text,
    /// The exit code.
    pub exit_code: Option<i32>,
    /// Variables defined.
    pub env_added: Seq<(Text, Text)>,
    /// Variables redefined.
    pub env_changed: Seq<(Text, Text, Text)>,
    /// Variables removed.
    pub env_removed: Seq<Text>,
    /// Directories put in front of `PATH`.
    pub path_added: Seq<Text>,
    /// Files changed.
    pub files: Seq<FileChangeView>,
    /// The workspace was too large to compare.
    pub files_truncated: bool,
    /// Where it failed.
    pub failure: Option<Text>,
    /// Why it was skipped.
    pub skip_reason: Seq<Text>,
}

/// [`JobRecord`] over views.
#[verifier::ext_equal]
pub struct JobView {
    /// The job's id.
    pub id: Text,
    /// The job's name.
    pub name: Option<Text>,
    /// The matrix suffix.
    pub matrix: Text,
    /// How it ended.
    pub status: Text,
    /// The steps.
    pub steps: Seq<StepView>,
}

/// [`RunRecord`] over views.
#[verifier::ext_equal]
pub struct RunView {
    /// The shape of the recording.
    pub format_version: u32,
    /// The version of the program that made it.
    pub stepci_version: Text,
    /// The workflow file.
    pub workflow: Text,
    /// When the run started.
    pub started_unix_ms: u128,
    /// The exit code of the run.
    pub exit_code: i32,
    /// The jobs.
    pub jobs: Seq<JobView>,
}

impl View for FileChange {
    type V = FileChangeView;

    open spec fn view(&self) -> FileChangeView {
        FileChangeView {
            path: self.path@,
            status: self.status@,
            dir_files: self.dir_files,
            hash: opt_text(self.hash),
        }
    }
}

/// File changes over views.
pub open spec fn change_views(v: Seq<FileChange>) -> Seq<FileChangeView> {
    v.map_values(|f: FileChange| f@)
}

impl View for StepRecord {
    type V = StepView;

    open spec fn view(&self) -> StepView {
        StepView {
            number: self.number,
            label: self.label@,
            kind: self.kind@,
            outcome: self.outcome@,
            exit_code: self.exit_code,
            env_added: pairs(self.env_added@),
            env_changed: triples(self.env_changed@),
            env_removed: texts(self.env_removed@),
            path_added: texts(self.path_added@),
            files: change_views(self.files@),
            files_truncated: self.files_truncated,
            failure: opt_text(self.failure),
            skip_reason: texts(self.skip_reason@),
        }
    }
}

/// Steps over views.
pub open spec fn step_views(v: Seq<StepRecord>) -> Seq<StepView> {
    v.map_values(|s: StepRecord| s@)
}

impl View for JobRecord {
    type V = JobView;

    open spec fn view(&self) -> JobView {
        JobView {
            id: self.id@,
            name: opt_text(self.name),
            matrix: self.matrix@,
            status: self.status@,
            steps: step_views(self.steps@),
        }
    }
}

/// Jobs over views.
pub open spec fn job_views(v: Seq<JobRecord>) -> Seq<JobView> {
    v.map_values(|j: JobRecord| j@)
}

impl View for RunRecord {
    type V = RunView;

    open spec fn view(&self) -> RunView {
        RunView {
            format_version: self.format_version,
            stepci_version: self.stepci_version@,
            workflow: self.workflow@,
            started_unix_ms: self.started_unix_ms,
            exit_code: self.exit_code,
            jobs: job_views(self.jobs@),
        }
    }
}

/// Runs over views.
pub open spec fn run_views(v: Seq<RunRecord>) -> Seq<RunView> {
    v.map_values(|r: RunRecord| r@)
}

// ---------------------------------------------------------------------------
// Making a step's record
// ---------------------------------------------------------------------------

/// What kind of step it is: `run`, or `uses:` and what it uses.
pub open spec fn kind_of(step: crate::model::StepView) -> Text {
    match step.action {
        StepActionView::Run(_) => "run"@,
        StepActionView::Uses(action, _) => "uses:"@ + action,
    }
}

/// What kind of step it is: `run`, or `uses:` and what it uses.
pub fn step_kind(step: &Step) -> (r: String)
    ensures
        r@ == kind_of(step@),
{
    match &step.action {
        StepAction::Run { .. } => "run".to_string(),
        StepAction::Uses { action, .. } => concat2("uses:", action.as_str()),
    }
}

/// An entry of a difference as a change, without a content hash.
pub open spec fn entry_change(e: EntryView, status: Text) -> FileChangeView {
    match e {
        EntryView::File(p) => FileChangeView { path: p, status, dir_files: None, hash: None },
        EntryView::Dir(p, n) => FileChangeView {
            path: p,
            status,
            dir_files: Some(n as usize),
            hash: None,
        },
    }
}

/// The changes of a difference: what was added, what was removed, what was
/// modified.
pub open spec fn changes_of(d: FsDiffView) -> Seq<FileChangeView> {
    d.added.map_values(|e: EntryView| entry_change(e, "added"@)) + d.removed.map_values(
        |e: EntryView| entry_change(e, "removed"@),
    ) + d.modified.map_values(|p: Text| entry_change(EntryView::File(p), "modified"@))
}

/// Add the entries of one list as changes.
fn push_entries(out: &mut Vec<FileChange>, entries: &Vec<Entry>, status: &str)
    ensures
        change_views(final(out)@) == change_views(old(out)@) + entry_views(entries@).map_values(
            |e: EntryView| entry_change(e, status@),
        ),
{
    let ghost start = change_views(out@);
    let ghost f = |e: EntryView| entry_change(e, status@);
    let ghost all = entry_views(entries@).map_values(f);
    let mut i: usize = 0;
    assert(start + all.take(0) =~= start);
    while i < entries.len()
        invariant
            i <= entries@.len(),
            f == (|e: EntryView| entry_change(e, status@)),
            all == entry_views(entries@).map_values(f),
            change_views(out@) == start + all.take(i as int),
        decreases entries@.len() - i,
    {
        let ghost done = change_views(out@);
        let c = match &entries[i] {
            Entry::File(p) => FileChange {
                path: p.clone(),
                status: status.to_string(),
                dir_files: None,
                hash: None,
            },
            Entry::Dir(p, n) => FileChange {
                path: p.clone(),
                status: status.to_string(),
                dir_files: Some(*n),
                hash: None,
            },
        };
        assert(c@ == all[i as int]);
        let ghost cv = c@;
        out.push(c);
        assert(change_views(out@) =~= done.push(cv));
        assert(all.take(i + 1) =~= all.take(i as int).push(cv));
        assert(change_views(out@) =~= start + all.take(i + 1));
        i += 1;
    }
    assert(all.take(entries@.len() as int) =~= all);
}

/// The changes of a difference, without content hashes: what was added, what was
/// removed, what was modified.
pub fn file_changes(d: &FsDiff) -> (r: Vec<FileChange>)
    ensures
        change_views(r@) == changes_of(d@),
{
    let mut out: Vec<FileChange> = Vec::new();
    assert(change_views(out@) =~= Seq::empty());
    push_entries(&mut out, &d.added, "added");
    push_entries(&mut out, &d.removed, "removed");
    let ghost start = change_views(out@);
    let ghost f = |p: Text| entry_change(EntryView::File(p), "modified"@);
    let ghost all = d@.modified.map_values(f);
    let mut i: usize = 0;
    assert(start + all.take(0) =~= start);
    while i < d.modified.len()
        invariant
            i <= d.modified@.len(),
            f == (|p: Text| entry_change(EntryView::File(p), "modified"@)),
            all == d@.modified.map_values(f),
            change_views(out@) == start + all.take(i as int),
        decreases d.modified@.len() - i,
    {
        let ghost done = change_views(out@);
        let c = FileChange {
            path: d.modified[i].clone(),
            status: "modified".to_string(),
            dir_files: None,
            hash: None,
        };
        assert(c@ == all[i as int]);
        let ghost cv = c@;
        out.push(c);
        assert(change_views(out@) =~= done.push(cv));
        assert(all.take(i + 1) =~= all.take(i as int).push(cv));
        assert(change_views(out@) =~= start + all.take(i + 1));
        i += 1;
    }
    assert(all.take(d.modified@.len() as int) =~= all);
    assert(change_views(out@) =~= changes_of(d@));
    out
}

/// Whether a change is recorded with the hash of the file's content: there is a
/// file, and it is a single one.
pub open spec fn takes_hash(f: FileChangeView) -> bool {
    f.status != "removed"@ && f.dir_files is None
}

/// Whether a change is recorded with the hash of the file's content: there is a
/// file, and it is a single one.
pub fn wants_hash(f: &FileChange) -> (r: bool)
    ensures
        r == takes_hash(f@),
{
    !str_eq(f.status.as_str(), "removed") && f.dir_files.is_none()
}

/// Changes with the content hashes that were taken of them.
pub open spec fn with_hashes(files: Seq<FileChangeView>, hashes: Seq<Option<Text>>) -> Seq<
    FileChangeView,
> {
    Seq::new(
        files.len(),
        |i: int|
            FileChangeView {
                hash: if takes_hash(files[i]) && i < hashes.len() {
                    hashes[i]
                } else {
                    None
                },
                ..files[i]
            },
    )
}

/// Optional strings over views.
pub open spec fn opt_texts(v: Seq<Option<String>>) -> Seq<Option<Text>> {
    v.map_values(|o: Option<String>| opt_text(o))
}

/// The changes of a difference with the content hashes that were taken of them,
/// one for each of [`file_changes`].
fn hashed_changes(d: &FsDiff, hashes: &Vec<Option<String>>) -> (r: Vec<FileChange>)
    ensures
        change_views(r@) == with_hashes(changes_of(d@), opt_texts(hashes@)),
{
    let files = file_changes(d);
    let ghost all = with_hashes(change_views(files@), opt_texts(hashes@));
    let mut out: Vec<FileChange> = Vec::new();
    let mut i: usize = 0;
    assert(change_views(out@) =~= all.take(0));
    while i < files.len()
        invariant
            i <= files@.len(),
            all == with_hashes(change_views(files@), opt_texts(hashes@)),
            change_views(out@) == all.take(i as int),
        decreases files@.len() - i,
    {
        let ghost done = change_views(out@);
        let f = &files[i];
        assert(change_views(files@)[i as int] == f@);
        let hash = if wants_hash(f) && i < hashes.len() {
            clone_opt(&hashes[i])
        } else {
            None
        };
        let c = FileChange {
            path: f.path.clone(),
            status: f.status.clone(),
            dir_files: f.dir_files,
            hash,
        };
        assert(c@ == all[i as int]);
        let ghost cv = c@;
        out.push(c);
        assert(change_views(out@) =~= done.push(cv));
        assert(all.take(i + 1) =~= all.take(i as int).push(cv));
        i += 1;
    }
    assert(all.take(files@.len() as int) =~= all);
    out
}

/// Pairs with their values masked.
pub open spec fn hidden_pairs(v: Seq<(Text, Text)>, secrets: Seq<(Text, Text)>) -> Seq<
    (Text, Text),
> {
    v.map_values(|p: (Text, Text)| (p.0, without_secrets(p.1, secrets)))
}

/// Redefined variables with both values masked.
pub open spec fn hidden_triples(v: Seq<(Text, Text, Text)>, secrets: Seq<(Text, Text)>) -> Seq<
    (Text, Text, Text),
> {
    v.map_values(
        |t: (Text, Text, Text)|
            (t.0, without_secrets(t.1, secrets), without_secrets(t.2, secrets)),
    )
}

/// Texts masked.
pub open spec fn hidden_texts(v: Seq<Text>, secrets: Seq<(Text, Text)>) -> Seq<Text> {
    v.map_values(|t: Text| without_secrets(t, secrets))
}

/// Pairs with their values masked.
fn hide_pairs(v: &Vec<(String, String)>, secrets: &StrMap) -> (r: Vec<(String, String)>)
    ensures
        pairs(r@) == hidden_pairs(pairs(v@), map_entries(*secrets)),
{
    let ghost all = hidden_pairs(pairs(v@), map_entries(*secrets));
    let mut out: Vec<(String, String)> = Vec::new();
    let mut i: usize = 0;
    assert(pairs(out@) =~= all.take(0));
    while i < v.len()
        invariant
            i <= v@.len(),
            all == hidden_pairs(pairs(v@), map_entries(*secrets)),
            pairs(out@) == all.take(i as int),
        decreases v@.len() - i,
    {
        let ghost done = pairs(out@);
        let k = v[i].0.clone();
        let x = mask_secrets(v[i].1.as_str(), secrets);
        let ghost kv = (k@, x@);
        assert(kv == all[i as int]);
        out.push((k, x));
        assert(pairs(out@) =~= done.push(kv));
        assert(all.take(i + 1) =~= all.take(i as int).push(kv));
        i += 1;
    }
    assert(all.take(v@.len() as int) =~= all);
    out
}

/// Redefined variables with both values masked.
fn hide_triples(v: &Vec<(String, String, String)>, secrets: &StrMap) -> (r: Vec<
    (String, String, String),
>)
    ensures
        triples(r@) == hidden_triples(triples(v@), map_entries(*secrets)),
{
    let ghost all = hidden_triples(triples(v@), map_entries(*secrets));
    let mut out: Vec<(String, String, String)> = Vec::new();
    let mut i: usize = 0;
    assert(triples(out@) =~= all.take(0));
    while i < v.len()
        invariant
            i <= v@.len(),
            all == hidden_triples(triples(v@), map_entries(*secrets)),
            triples(out@) == all.take(i as int),
        decreases v@.len() - i,
    {
        let ghost done = triples(out@);
        let k = v[i].0.clone();
        let a = mask_secrets(v[i].1.as_str(), secrets);
        let b = mask_secrets(v[i].2.as_str(), secrets);
        let ghost t = (k@, a@, b@);
        assert(t == all[i as int]);
        out.push((k, a, b));
        assert(triples(out@) =~= done.push(t));
        assert(all.take(i + 1) =~= all.take(i as int).push(t));
        i += 1;
    }
    assert(all.take(v@.len() as int) =~= all);
    out
}

/// Texts masked.
fn hide_texts(v: &Vec<String>, secrets: &StrMap) -> (r: Vec<String>)
    ensures
        texts(r@) == hidden_texts(texts(v@), map_entries(*secrets)),
{
    let ghost all = hidden_texts(texts(v@), map_entries(*secrets));
    let mut out: Vec<String> = Vec::new();
    let mut i: usize = 0;
    assert(texts(out@) =~= all.take(0));
    while i < v.len()
        invariant
            i <= v@.len(),
            all == hidden_texts(texts(v@), map_entries(*secrets)),
            texts(out@) == all.take(i as int),
        decreases v@.len() - i,
    {
        let ghost done = texts(out@);
        let x = mask_secrets(v[i].as_str(), secrets);
        let ghost xv = x@;
        assert(xv == all[i as int]);
        out.push(x);
        assert(texts(out@) =~= done.push(xv));
        assert(all.take(i + 1) =~= all.take(i as int).push(xv));
        i += 1;
    }
    assert(all.take(v@.len() as int) =~= all);
    out
}

/// The record of a step that has run: what it changed, with the secrets masked in
/// the values of variables and in the directories put in front of `PATH`.
pub open spec fn ran(
    step: crate::model::StepView,
    number: usize,
    ok: bool,
    exit_code: Option<i32>,
    env: EnvDiffView,
    fs: FsDiffView,
    hashes: Seq<Option<Text>>,
    secrets: Seq<(Text, Text)>,
) -> StepView {
    StepView {
        number,
        label: label_of(step),
        kind: kind_of(step),
        outcome: if ok {
            "success"@
        } else {
            "failure"@
        },
        exit_code,
        env_added: hidden_pairs(env.added, secrets),
        env_changed: hidden_triples(env.changed, secrets),
        env_removed: env.removed,
        path_added: hidden_texts(env.path_added, secrets),
        files: with_hashes(changes_of(fs), hashes),
        files_truncated: fs.truncated,
        failure: None,
        skip_reason: Seq::empty(),
    }
}

/// The record of a step that has run. `hashes` holds, for each of the
/// [`file_changes`] of `fs`, the hash of the file's content where there is one.
#[allow(clippy::too_many_arguments)]
pub fn step_record(
    step: &Step,
    number: usize,
    ok: bool,
    exit_code: Option<i32>,
    env: &EnvDiff,
    fs: &FsDiff,
    hashes: &Vec<Option<String>>,
    secrets: &StrMap,
) -> (r: StepRecord)
    ensures
        r@ == ran(
            step@,
            number,
            ok,
            exit_code,
            env@,
            fs@,
            opt_texts(hashes@),
            map_entries(*secrets),
        ),
{
    let outcome = if ok {
        "success".to_string()
    } else {
        "failure".to_string()
    };
    let r = StepRecord {
        number,
        label: step_label(step),
        kind: step_kind(step),
        outcome,
        exit_code,
        env_added: hide_pairs(&env.added, secrets),
        env_changed: hide_triples(&env.changed, secrets),
        env_removed: clone_strings(&env.removed),
        path_added: hide_texts(&env.path_added, secrets),
        files: hashed_changes(fs, hashes),
        files_truncated: fs.truncated,
        failure: None,
        skip_reason: Vec::new(),
    };
    assert(texts(r.skip_reason@) =~= Seq::empty());
    r
}

/// The record of a step that was passed over, and why.
pub open spec fn passed_over(step: crate::model::StepView, number: usize, reason: Text) -> StepView {
    StepView {
        number,
        label: label_of(step),
        kind: kind_of(step),
        outcome: "skipped"@,
        exit_code: None,
        env_added: Seq::empty(),
        env_changed: Seq::empty(),
        env_removed: Seq::empty(),
        path_added: Seq::empty(),
        files: Seq::empty(),
        files_truncated: false,
        failure: None,
        skip_reason: seq![reason],
    }
}

/// The record of a step that was passed over, and why.
pub fn skipped_record(step: &Step, number: usize, reason: &str) -> (r: StepRecord)
    ensures
        r@ == passed_over(step@, number, reason@),
{
    let why = reason.to_string();
    let mut skip_reason: Vec<String> = Vec::new();
    skip_reason.push(why);
    let r = StepRecord {
        number,
        label: step_label(step),
        kind: step_kind(step),
        outcome: "skipped".to_string(),
        exit_code: None,
        env_added: Vec::new(),
        env_changed: Vec::new(),
        env_removed: Vec::new(),
        path_added: Vec::new(),
        files: Vec::new(),
        files_truncated: false,
        failure: None,
        skip_reason,
    };
    assert(r@ =~= passed_over(step@, number, reason@));
    r
}

/// A removed file and a directory are recorded without a content hash, whatever
/// was taken of them.
pub proof fn law_only_present_files_are_hashed(
    fs: FsDiffView,
    hashes: Seq<Option<Text>>,
    i: int,
)
    requires
        0 <= i < changes_of(fs).len(),
        with_hashes(changes_of(fs), hashes)[i].hash is Some,
    ensures
        changes_of(fs)[i].status != "removed"@,
        changes_of(fs)[i].dir_files is None,
{
}

// ---------------------------------------------------------------------------
// Places
// ---------------------------------------------------------------------------

/// What is said where there is no home directory.
pub open spec fn no_home() -> Text {
    "no HOME directory for the stepci cache"@
}

/// A directory of the program's own under the home directory.
pub open spec fn own_dir(home: Option<Text>, sub: Text) -> Result<Text, Text> {
    match under_home(home, ".cache/stepci"@, no_home()) {
        Ok(p) => Ok(path_join(p, sub)),
        Err(e) => Err(e),
    }
}

/// A path result over views.
pub open spec fn path_result(r: Result<String, String>) -> Result<Text, Text> {
    match r {
        Ok(p) => Ok(p@),
        Err(e) => Err(e@),
    }
}

/// A directory of the program's own under the home directory.
fn cache_home_subdir(home: &Option<String>, sub: &str) -> (r: Result<String, String>)
    ensures
        path_result(r) == own_dir(opt_text(*home), sub@),
{
    match home_subdir(home, ".cache/stepci", "no HOME directory for the stepci cache") {
        Ok(p) => Ok(join_path(p.as_str(), sub)),
        Err(e) => Err(e),
    }
}

/// The directory of all recordings (`~/.cache/stepci/runs`), given the home
/// directory.
pub fn runs_dir(home: &Option<String>) -> (r: Result<String, String>)
    ensures
        path_result(r) == own_dir(opt_text(*home), "runs"@),
{
    cache_home_subdir(home, "runs")
}

/// The store of file contents (`~/.cache/stepci/blobs`), given the home directory.
pub fn blobs_dir(home: &Option<String>) -> (r: Result<String, String>)
    ensures
        path_result(r) == own_dir(opt_text(*home), "blobs"@),
{
    cache_home_subdir(home, "blobs")
}

/// The directory of a recording within the directory of all.
pub fn run_dir(runs: &str, started_unix_ms: u128) -> (r: String)
    ensures
        r@ == path_join(runs@, decimal(started_unix_ms as nat)),
{
    join_path(runs, nat_text(started_unix_ms, 10).as_str())
}

/// Whether a file's content is hashed: it is a regular one and not too large.
pub fn is_hashed(is_file: bool, len: u64) -> (r: bool)
    ensures
        r == (is_file && len <= MAX_HASH_BYTES),
{
    is_file && len <= MAX_HASH_BYTES
}

// ---------------------------------------------------------------------------
// Contents
// ---------------------------------------------------------------------------

/// All steps of the jobs, in order.
pub open spec fn all_steps(jobs: Seq<JobView>) -> Seq<StepView>
    decreases jobs.len(),
{
    if jobs.len() == 0 {
        Seq::empty()
    } else {
        all_steps(jobs.drop_last()) + jobs.last().steps
    }
}

/// All file changes of the steps, in order.
pub open spec fn all_changes(steps: Seq<StepView>) -> Seq<FileChangeView>
    decreases steps.len(),
{
    if steps.len() == 0 {
        Seq::empty()
    } else {
        all_changes(steps.drop_last()) + steps.last().files
    }
}

/// The content hash that the last change of a file left, if the file is there and
/// was hashed.
pub open spec fn last_hash(changes: Seq<FileChangeView>, path: Text) -> Option<Text>
    decreases changes.len(),
{
    if changes.len() == 0 {
        None
    } else if changes.last().path == path {
        if changes.last().status == "removed"@ {
            None
        } else {
            changes.last().hash
        }
    } else {
        last_hash(changes.drop_last(), path)
    }
}

/// The last change leaves what it left whatever came before.
proof fn lemma_last_hash(a: Seq<FileChangeView>, b: Seq<FileChangeView>, path: Text)
    ensures
        last_hash(a + b, path) == (if touches(b, path) {
            last_hash(b, path)
        } else {
            last_hash(a, path)
        }),
    decreases b.len(),
{
    if b.len() == 0 {
        assert(a + b =~= a);
    } else {
        assert((a + b).last() == b.last());
        assert((a + b).drop_last() =~= a + b.drop_last());
        lemma_last_hash(a, b.drop_last(), path);
    }
}

/// A change of a path is among the changes.
pub open spec fn touches(changes: Seq<FileChangeView>, path: Text) -> bool
    decreases changes.len(),
{
    changes.len() > 0 && (changes.last().path == path || touches(changes.drop_last(), path))
}

/// The content hash of a file's final state within a run: as of the last step that
/// wrote it.
pub fn file_content(run: &RunRecord, path: &str) -> (r: Option<String>)
    ensures
        opt_text(r) == last_hash(all_changes(all_steps(run@.jobs)), path@),
{
    let mut hash: Option<String> = None;
    let mut j: usize = 0;
    let ghost jobs = job_views(run.jobs@);
    assert(jobs.take(0) =~= Seq::empty());
    assert(all_changes(all_steps(jobs.take(0))) =~= Seq::empty());
    while j < run.jobs.len()
        invariant
            j <= run.jobs@.len(),
            jobs == job_views(run.jobs@),
            opt_text(hash) == last_hash(all_changes(all_steps(jobs.take(j as int))), path@),
        decreases run.jobs@.len() - j,
    {
        let steps = &run.jobs[j].steps;
        let ghost sv = step_views(steps@);
        let ghost before = all_steps(jobs.take(j as int));
        assert(jobs.take(j + 1).drop_last() =~= jobs.take(j as int));
        assert(jobs.take(j + 1).last().steps == sv);
        assert(sv.take(0) =~= Seq::empty());
        assert(before + sv.take(0) =~= before);
        let mut s: usize = 0;
        while s < steps.len()
            invariant
                s <= steps@.len(),
                sv == step_views(steps@),
                opt_text(hash) == last_hash(all_changes(before + sv.take(s as int)), path@),
            decreases steps@.len() - s,
        {
            let files = &steps[s].files;
            let ghost fv = change_views(files@);
            let ghost past = all_changes(before + sv.take(s as int));
            assert((before + sv.take(s + 1)).drop_last() =~= before + sv.take(s as int));
            assert((before + sv.take(s + 1)).last().files == fv);
            assert(fv.take(0) =~= Seq::empty());
            assert(past + fv.take(0) =~= past);
            let mut f: usize = 0;
            while f < files.len()
                invariant
                    f <= files@.len(),
                    fv == change_views(files@),
                    opt_text(hash) == last_hash(past + fv.take(f as int), path@),
                decreases files@.len() - f,
            {
                assert((past + fv.take(f + 1)).drop_last() =~= past + fv.take(f as int));
                assert((past + fv.take(f + 1)).last() == files@[f as int]@);
                if str_eq(files[f].path.as_str(), path) {
                    hash = if str_eq(files[f].status.as_str(), "removed") {
                        None
                    } else {
                        clone_opt(&files[f].hash)
                    };
                }
                f += 1;
            }
            assert(fv.take(f as int) =~= fv);
            s += 1;
        }
        assert(sv.take(s as int) =~= sv);
        j += 1;
    }
    assert(jobs.take(j as int) =~= jobs);
    hash
}

// ---------------------------------------------------------------------------
// Provenance
// ---------------------------------------------------------------------------

/// One step's effect on a variable or a file.
#[derive(Debug, Clone)]
pub struct TraceEntry {
    /// The step's number.
    pub step: usize,
    /// The step's label.
    pub label: String,
    /// What the step did.
    pub effect: String,
}

/// [`TraceEntry`] over views.
#[verifier::ext_equal]
pub struct TraceView {
    /// The step's number.
    pub step: usize,
    /// The step's label.
    pub label: Text,
    /// What the step did.
    pub effect: Text,
}

impl View for TraceEntry {
    type V = TraceView;

    open spec fn view(&self) -> TraceView {
        TraceView { step: self.step, label: self.label@, effect: self.effect@ }
    }
}

/// Entries over views.
pub open spec fn trace_views(v: Seq<TraceEntry>) -> Seq<TraceView> {
    v.map_values(|t: TraceEntry| t@)
}

/// The old and new value of the first triple with a key.
pub open spec fn change_of(v: Seq<(Text, Text, Text)>, k: Text) -> Option<(Text, Text)>
    decreases v.len(),
{
    if v.len() == 0 {
        None
    } else if v[0].0 == k {
        Some((v[0].1, v[0].2))
    } else {
        change_of(v.skip(1), k)
    }
}

/// What a change did to a file.
pub open spec fn file_effect(status: Text) -> Text {
    if status == "added"@ {
        "created the file"@
    } else if status == "removed"@ {
        "removed the file"@
    } else {
        "modified the file"@
    }
}

/// What changes did to a file, in order.
pub open spec fn file_effects(files: Seq<FileChangeView>, name: Text) -> Seq<Text>
    decreases files.len(),
{
    if files.len() == 0 {
        Seq::empty()
    } else {
        let rest = file_effects(files.drop_last(), name);
        if files.last().path == name {
            rest.push(file_effect(files.last().status))
        } else {
            rest
        }
    }
}

/// What a step did to a name: as a variable, as a directory of `PATH`, as a file.
pub open spec fn effects(s: StepView, name: Text) -> Seq<Text> {
    (match crate::table::lookup(s.env_added, name) {
        Some(v) => seq!["set it to "@ + v],
        None => Seq::empty(),
    }) + (match change_of(s.env_changed, name) {
        Some(p) => seq!["changed it "@ + p.0 + " → "@ + p.1],
        None => Seq::empty(),
    }) + (if s.env_removed.contains(name) {
        seq!["removed it from the env"@]
    } else {
        Seq::empty()
    }) + (if s.path_added.contains(name) {
        seq!["prepended it to PATH"@]
    } else {
        Seq::empty()
    }) + file_effects(s.files, name)
}

/// A step's effects as entries.
pub open spec fn step_trace(s: StepView, name: Text) -> Seq<TraceView> {
    effects(s, name).map_values(
        |e: Text| TraceView { step: s.number, label: s.label, effect: e },
    )
}

/// Every effect on a name, in order.
pub open spec fn traced(steps: Seq<StepView>, name: Text) -> Seq<TraceView>
    decreases steps.len(),
{
    if steps.len() == 0 {
        Seq::empty()
    } else {
        traced(steps.drop_last(), name) + step_trace(steps.last(), name)
    }
}

/// The old and new value of the first triple with a key.
fn find_change(v: &Vec<(String, String, String)>, k: &str) -> (r: Option<(String, String)>)
    ensures
        crate::scan::opt_pair(r) == change_of(triples(v@), k@),
{
    let ghost all = triples(v@);
    assert(all.skip(0) =~= all);
    let mut i: usize = 0;
    while i < v.len()
        invariant
            i <= v@.len(),
            all == triples(v@),
            change_of(all, k@) == change_of(all.skip(i as int), k@),
        decreases v@.len() - i,
    {
        assert(all.skip(i as int).skip(1) =~= all.skip(i + 1));
        if str_eq(v[i].0.as_str(), k) {
            return Some((v[i].1.clone(), v[i].2.clone()));
        }
        i += 1;
    }
    None
}

/// What a step did to a name.
fn step_effects(s: &StepRecord, name: &str) -> (r: Vec<String>)
    ensures
        texts(r@) == effects(s@, name@),
{
    let mut out: Vec<String> = Vec::new();
    let ghost e0 = Seq::<Text>::empty();
    assert(texts(out@) =~= e0);
    match crate::secrets::find_pair(&s.env_added, name) {
        Some(v) => {
            out.push(concat2("set it to ", v.as_str()));
        },
        None => {},
    }
    let ghost e1 = texts(out@);
    assert(e1 =~= (match crate::table::lookup(s@.env_added, name@) {
        Some(v) => seq!["set it to "@ + v],
        None => Seq::empty(),
    }));
    match find_change(&s.env_changed, name) {
        Some(p) => {
            out.push(concat4("changed it ", p.0.as_str(), " → ", p.1.as_str()));
        },
        None => {},
    }
    let ghost e2 = texts(out@);
    assert(e2 =~= e1 + (match change_of(s@.env_changed, name@) {
        Some(p) => seq!["changed it "@ + p.0 + " → "@ + p.1],
        None => Seq::empty(),
    }));
    if has_text(&s.env_removed, name) {
        out.push("removed it from the env".to_owned());
    }
    let ghost e3 = texts(out@);
    assert(e3 =~= e2 + (if s@.env_removed.contains(name@) {
        seq!["removed it from the env"@]
    } else {
        Seq::empty()
    }));
    if has_text(&s.path_added, name) {
        out.push("prepended it to PATH".to_owned());
    }
    let ghost e4 = texts(out@);
    assert(e4 =~= e3 + (if s@.path_added.contains(name@) {
        seq!["prepended it to PATH"@]
    } else {
        Seq::empty()
    }));
    let ghost fv = change_views(s.files@);
    let mut i: usize = 0;
    assert(fv.take(0) =~= Seq::empty());
    assert(e4 + file_effects(fv.take(0), name@) =~= e4);
    while i < s.files.len()
        invariant
            i <= s.files@.len(),
            fv == change_views(s.files@),
            texts(out@) == e4 + file_effects(fv.take(i as int), name@),
        decreases s.files@.len() - i,
    {
        assert(fv.take(i + 1).drop_last() =~= fv.take(i as int));
        assert(fv.take(i + 1).last() == s.files@[i as int]@);
        if str_eq(s.files[i].path.as_str(), name) {
            let ghost done = texts(out@);
            let status = s.files[i].status.as_str();
            let e = if str_eq(status, "added") {
                "created the file".to_owned()
            } else if str_eq(status, "removed") {
                "removed the file".to_owned()
            } else {
                "modified the file".to_owned()
            };
            out.push(e);
            assert(texts(out@) =~= done.push(e@));
            assert(texts(out@) =~= e4 + file_effects(fv.take(i + 1), name@));
        }
        i += 1;
    }
    assert(fv.take(i as int) =~= fv);
    out
}

/// Every step of a run that touched a variable or a file, in order: which step
/// set what, and with several writes which one won.
pub fn trace(run: &RunRecord, name: &str) -> (r: Vec<TraceEntry>)
    ensures
        trace_views(r@) == traced(all_steps(run@.jobs), name@),
{
    let mut out: Vec<TraceEntry> = Vec::new();
    let mut j: usize = 0;
    let ghost jobs = job_views(run.jobs@);
    assert(jobs.take(0) =~= Seq::empty());
    assert(trace_views(out@) =~= traced(all_steps(jobs.take(0)), name@));
    while j < run.jobs.len()
        invariant
            j <= run.jobs@.len(),
            jobs == job_views(run.jobs@),
            trace_views(out@) == traced(all_steps(jobs.take(j as int)), name@),
        decreases run.jobs@.len() - j,
    {
        let steps = &run.jobs[j].steps;
        let ghost sv = step_views(steps@);
        let ghost before = all_steps(jobs.take(j as int));
        assert(jobs.take(j + 1).drop_last() =~= jobs.take(j as int));
        assert(jobs.take(j + 1).last().steps == sv);
        assert(sv.take(0) =~= Seq::empty());
        assert(before + sv.take(0) =~= before);
        let mut s: usize = 0;
        while s < steps.len()
            invariant
                s <= steps@.len(),
                sv == step_views(steps@),
                trace_views(out@) == traced(before + sv.take(s as int), name@),
            decreases steps@.len() - s,
        {
            let ghost past = traced(before + sv.take(s as int), name@);
            let ghost here = steps@[s as int]@;
            assert((before + sv.take(s + 1)).drop_last() =~= before + sv.take(s as int));
            assert((before + sv.take(s + 1)).last() == here);
            let es = step_effects(&steps[s], name);
            let ghost ev = texts(es@);
            let mut k: usize = 0;
            assert(step_trace(here, name@).take(0) =~= Seq::empty());
            assert(past + step_trace(here, name@).take(0) =~= past);
            while k < es.len()
                invariant
                    k <= es@.len(),
                    s < steps@.len(),
                    ev == texts(es@),
                    here == steps@[s as int]@,
                    ev == effects(here, name@),
                    trace_views(out@) == past + step_trace(here, name@).take(k as int),
                decreases es@.len() - k,
            {
                let ghost done = trace_views(out@);
                let t = TraceEntry {
                    step: steps[s].number,
                    label: steps[s].label.clone(),
                    effect: es[k].clone(),
                };
                assert(step_trace(here, name@)[k as int] == t@);
                out.push(t);
                assert(trace_views(out@) =~= done.push(t@));
                assert(trace_views(out@) =~= past + step_trace(here, name@).take(k + 1));
                k += 1;
            }
            assert(step_trace(here, name@).take(k as int) =~= step_trace(here, name@));
            s += 1;
        }
        assert(sv.take(s as int) =~= sv);
        j += 1;
    }
    assert(jobs.take(j as int) =~= jobs);
    out
}

// ---------------------------------------------------------------------------
// Comparing a step across runs
// ---------------------------------------------------------------------------

/// The mark for what is not there.
pub open spec fn dash() -> Text {
    "—"@
}

/// An exit code, or its absence.
pub open spec fn code_text(c: Option<i32>) -> Text {
    match c {
        Some(n) => int_text(n as int),
        None => dash(),
    }
}

/// A text, or what stands for its absence.
pub open spec fn text_or(t: Option<Text>, other: Text) -> Text {
    match t {
        Some(x) => x,
        None => other,
    }
}

/// The new value of the last triple with a key.
pub open spec fn last_change(v: Seq<(Text, Text, Text)>, k: Text) -> Option<Text>
    decreases v.len(),
{
    if v.len() == 0 {
        None
    } else if v.last().0 == k {
        Some(v.last().2)
    } else {
        last_change(v.drop_last(), k)
    }
}

/// The value of the last pair with a key.
pub open spec fn last_value(v: Seq<(Text, Text)>, k: Text) -> Option<Text>
    decreases v.len(),
{
    if v.len() == 0 {
        None
    } else if v.last().0 == k {
        Some(v.last().1)
    } else {
        last_value(v.drop_last(), k)
    }
}

/// What a step did to a variable in the end.
pub open spec fn env_effect(s: StepView, k: Text) -> Option<Text> {
    if s.env_removed.contains(k) {
        Some("removed"@)
    } else {
        match last_change(s.env_changed, k) {
            Some(n) => Some("changed to "@ + n),
            None => match last_value(s.env_added, k) {
                Some(v) => Some("set to "@ + v),
                None => None,
            },
        }
    }
}

/// The variables that a step touched.
pub open spec fn env_keys(s: StepView) -> Seq<Text> {
    s.env_added.map_values(|p: (Text, Text)| p.0) + s.env_changed.map_values(
        |t: (Text, Text, Text)| t.0,
    ) + s.env_removed
}

/// What a step left of a file: its status and its content hash.
pub open spec fn file_state(files: Seq<FileChangeView>, p: Text) -> Option<(Text, Option<Text>)>
    decreases files.len(),
{
    if files.len() == 0 {
        None
    } else if files.last().path == p {
        Some((files.last().status, files.last().hash))
    } else {
        file_state(files.drop_last(), p)
    }
}

/// The files that a step touched.
pub open spec fn file_paths(s: StepView) -> Seq<Text> {
    s.files.map_values(|f: FileChangeView| f.path)
}

/// The line for a variable, where two steps differ on it.
pub open spec fn env_line(a: StepView, b: StepView, k: Text) -> Option<Text> {
    let av = text_or(env_effect(a, k), dash());
    let bv = text_or(env_effect(b, k), dash());
    if av != bv {
        Some("env "@ + k + ": "@ + av + " → "@ + bv)
    } else {
        None
    }
}

/// The line for a file, where two steps differ on it: another status always, the
/// same status only where both contents are known and differ.
pub open spec fn file_line(a: StepView, b: StepView, p: Text) -> Option<Text> {
    match (file_state(a.files, p), file_state(b.files, p)) {
        (Some(x), Some(y)) => if x.0 != y.0 {
            Some("file "@ + p + ": "@ + x.0 + " → "@ + y.0)
        } else {
            match (x.1, y.1) {
                (Some(h), Some(g)) => if h != g {
                    Some("file "@ + p + ": "@ + x.0 + ", content differs"@)
                } else {
                    None
                },
                _ => None,
            }
        },
        (Some(x), None) => Some("file "@ + p + ": "@ + x.0 + " → "@ + dash()),
        (None, Some(y)) => Some("file "@ + p + ": "@ + dash() + " → "@ + y.0),
        (None, None) => None,
    }
}

/// The lines for variables.
pub open spec fn env_lines(keys: Seq<Text>, a: StepView, b: StepView) -> Seq<Text>
    decreases keys.len(),
{
    if keys.len() == 0 {
        Seq::empty()
    } else {
        let rest = env_lines(keys.drop_last(), a, b);
        match env_line(a, b, keys.last()) {
            Some(l) => rest.push(l),
            None => rest,
        }
    }
}

/// The lines for files.
pub open spec fn file_lines(paths: Seq<Text>, a: StepView, b: StepView) -> Seq<Text>
    decreases paths.len(),
{
    if paths.len() == 0 {
        Seq::empty()
    } else {
        let rest = file_lines(paths.drop_last(), a, b);
        match file_line(a, b, paths.last()) {
            Some(l) => rest.push(l),
            None => rest,
        }
    }
}

/// A line, or none.
pub open spec fn line_if(b: bool, l: Text) -> Seq<Text> {
    if b {
        seq![l]
    } else {
        Seq::empty()
    }
}

/// What differs between the same step of two runs.
pub open spec fn changes_between(a: StepView, b: StepView) -> Seq<Text> {
    line_if(a.outcome != b.outcome, "outcome: "@ + a.outcome + " → "@ + b.outcome) + line_if(
        a.exit_code != b.exit_code,
        "exit: "@ + code_text(a.exit_code) + " → "@ + code_text(b.exit_code),
    ) + line_if(
        a.failure != b.failure,
        "failure: "@ + text_or(a.failure, "none"@) + " → "@ + text_or(b.failure, "none"@),
    ) + env_lines(sorted_texts(env_keys(a) + env_keys(b)), a, b) + file_lines(
        sorted_texts(file_paths(a) + file_paths(b)),
        a,
        b,
    )
}

/// An exit code, or a dash.
pub fn opt_code(c: Option<i32>) -> (r: String)
    ensures
        r@ == code_text(c),
{
    match c {
        Some(n) => i64_text(n as i64),
        None => "—".to_owned(),
    }
}

/// A copy of a text, or of what stands for its absence.
fn or_text(t: &Option<String>, other: &str) -> (r: String)
    ensures
        r@ == text_or(opt_text(*t), other@),
{
    match t {
        Some(x) => x.clone(),
        None => other.to_owned(),
    }
}

/// What a step did to a variable in the end.
pub fn env_effects(s: &StepRecord, k: &str) -> (r: Option<String>)
    ensures
        opt_text(r) == env_effect(s@, k@),
{
    if has_text(&s.env_removed, k) {
        return Some("removed".to_owned());
    }
    let ghost cv = triples(s.env_changed@);
    let mut i: usize = s.env_changed.len();
    assert(cv.take(i as int) =~= cv);
    while i > 0
        invariant
            i <= s.env_changed@.len(),
            cv == triples(s.env_changed@),
            !s@.env_removed.contains(k@),
            last_change(cv, k@) == last_change(cv.take(i as int), k@),
        decreases i,
    {
        assert(cv.take(i as int).last() == cv[i - 1]);
        assert(cv.take(i as int).drop_last() =~= cv.take(i - 1));
        if str_eq(s.env_changed[i - 1].0.as_str(), k) {
            return Some(concat2("changed to ", s.env_changed[i - 1].2.as_str()));
        }
        i -= 1;
    }
    let ghost av = pairs(s.env_added@);
    let mut j: usize = s.env_added.len();
    assert(av.take(j as int) =~= av);
    while j > 0
        invariant
            j <= s.env_added@.len(),
            av == pairs(s.env_added@),
            !s@.env_removed.contains(k@),
            last_change(s@.env_changed, k@) is None,
            last_value(av, k@) == last_value(av.take(j as int), k@),
        decreases j,
    {
        assert(av.take(j as int).last() == av[j - 1]);
        assert(av.take(j as int).drop_last() =~= av.take(j - 1));
        if str_eq(s.env_added[j - 1].0.as_str(), k) {
            return Some(concat2("set to ", s.env_added[j - 1].1.as_str()));
        }
        j -= 1;
    }
    None
}

/// The variables that a step touched.
fn touched_keys(s: &StepRecord) -> (r: Vec<String>)
    ensures
        texts(r@) == env_keys(s@),
{
    let ghost a = s@.env_added.map_values(|p: (Text, Text)| p.0);
    let ghost c = s@.env_changed.map_values(|t: (Text, Text, Text)| t.0);
    let mut out: Vec<String> = Vec::new();
    let mut i: usize = 0;
    assert(texts(out@) =~= a.take(0));
    while i < s.env_added.len()
        invariant
            i <= s.env_added@.len(),
            a == s@.env_added.map_values(|p: (Text, Text)| p.0),
            texts(out@) == a.take(i as int),
        decreases s.env_added@.len() - i,
    {
        let ghost done = texts(out@);
        let k = s.env_added[i].0.clone();
        assert(a[i as int] == k@);
        out.push(k);
        assert(texts(out@) =~= done.push(k@));
        assert(texts(out@) =~= a.take(i + 1));
        i += 1;
    }
    let mut j: usize = 0;
    assert(texts(out@) =~= a + c.take(0));
    while j < s.env_changed.len()
        invariant
            j <= s.env_changed@.len(),
            c == s@.env_changed.map_values(|t: (Text, Text, Text)| t.0),
            texts(out@) == a + c.take(j as int),
        decreases s.env_changed@.len() - j,
    {
        let ghost done = texts(out@);
        let k = s.env_changed[j].0.clone();
        assert(c[j as int] == k@);
        out.push(k);
        assert(texts(out@) =~= done.push(k@));
        assert(texts(out@) =~= a + c.take(j + 1));
        j += 1;
    }
    let mut l: usize = 0;
    let ghost rm = texts(s.env_removed@);
    assert(texts(out@) =~= a + c + rm.take(0));
    while l < s.env_removed.len()
        invariant
            l <= s.env_removed@.len(),
            rm == texts(s.env_removed@),
            texts(out@) == a + c + rm.take(l as int),
        decreases s.env_removed@.len() - l,
    {
        let ghost done = texts(out@);
        let k = s.env_removed[l].clone();
        out.push(k);
        assert(texts(out@) =~= done.push(k@));
        assert(texts(out@) =~= a + c + rm.take(l + 1));
        l += 1;
    }
    assert(rm.take(l as int) =~= rm);
    out
}

/// The files that a step touched.
fn touched_paths(s: &StepRecord) -> (r: Vec<String>)
    ensures
        texts(r@) == file_paths(s@),
{
    let mut out: Vec<String> = Vec::new();
    let mut i: usize = 0;
    assert(texts(out@) =~= file_paths(s@).take(0));
    while i < s.files.len()
        invariant
            i <= s.files@.len(),
            texts(out@) == file_paths(s@).take(i as int),
        decreases s.files@.len() - i,
    {
        let ghost done = texts(out@);
        let p = s.files[i].path.clone();
        assert(file_paths(s@)[i as int] == p@);
        out.push(p);
        assert(texts(out@) =~= done.push(p@));
        assert(texts(out@) =~= file_paths(s@).take(i + 1));
        i += 1;
    }
    assert(file_paths(s@).take(i as int) =~= file_paths(s@));
    out
}

/// What a step left of a file.
fn file_index(s: &StepRecord, p: &str) -> (r: Option<(String, Option<String>)>)
    ensures
        (match r {
            Some(x) => Some((x.0@, opt_text(x.1))),
            None => None,
        }) == file_state(s@.files, p@),
{
    let ghost fv = change_views(s.files@);
    let mut i: usize = s.files.len();
    assert(fv.take(i as int) =~= fv);
    while i > 0
        invariant
            i <= s.files@.len(),
            fv == change_views(s.files@),
            file_state(fv, p@) == file_state(fv.take(i as int), p@),
        decreases i,
    {
        assert(fv.take(i as int).last() == fv[i - 1]);
        assert(fv.take(i as int).drop_last() =~= fv.take(i - 1));
        if str_eq(s.files[i - 1].path.as_str(), p) {
            return Some((s.files[i - 1].status.clone(), clone_opt(&s.files[i - 1].hash)));
        }
        i -= 1;
    }
    None
}

/// The line for a variable, where two steps differ on it.
fn diff_env(a: &StepRecord, b: &StepRecord, k: &str) -> (r: Option<String>)
    ensures
        opt_text(r) == env_line(a@, b@, k@),
{
    let av = or_text(&env_effects(a, k), "—");
    let bv = or_text(&env_effects(b, k), "—");
    if !str_eq(av.as_str(), bv.as_str()) {
        let head = concat4("env ", k, ": ", av.as_str());
        let mut l = head;
        l.append(" → ");
        l.append(bv.as_str());
        Some(l)
    } else {
        None
    }
}

/// The line for a file, where two steps differ on it.
fn diff_file(a: &StepRecord, b: &StepRecord, p: &str) -> (r: Option<String>)
    ensures
        opt_text(r) == file_line(a@, b@, p@),
{
    match (file_index(a, p), file_index(b, p)) {
        (Some(x), Some(y)) => {
            if !str_eq(x.0.as_str(), y.0.as_str()) {
                let mut l = concat4("file ", p, ": ", x.0.as_str());
                l.append(" → ");
                l.append(y.0.as_str());
                Some(l)
            } else {
                match (x.1, y.1) {
                    (Some(h), Some(g)) => {
                        if !str_eq(h.as_str(), g.as_str()) {
                            let mut l = concat4("file ", p, ": ", x.0.as_str());
                            l.append(", content differs");
                            Some(l)
                        } else {
                            None
                        }
                    },
                    _ => None,
                }
            }
        },
        (Some(x), None) => {
            let mut l = concat4("file ", p, ": ", x.0.as_str());
            l.append(" → ");
            l.append("—");
            Some(l)
        },
        (None, Some(y)) => {
            let mut l = concat4("file ", p, ": ", "—");
            l.append(" → ");
            l.append(y.0.as_str());
            Some(l)
        },
        (None, None) => None,
    }
}

/// The differences between the same step of two runs, for people to read; none if
/// the step behaved alike as far as was recorded.
pub fn step_changes(a: &StepRecord, b: &StepRecord) -> (r: Vec<String>)
    ensures
        texts(r@) == changes_between(a@, b@),
{
    let mut out: Vec<String> = Vec::new();
    if !str_eq(a.outcome.as_str(), b.outcome.as_str()) {
        out.push(concat4("outcome: ", a.outcome.as_str(), " → ", b.outcome.as_str()));
    }
    let ghost e1 = texts(out@);
    assert(e1 =~= line_if(
        a@.outcome != b@.outcome,
        "outcome: "@ + a@.outcome + " → "@ + b@.outcome,
    ));
    let same_code: bool = match (a.exit_code, b.exit_code) {
        (Some(x), Some(y)) => x == y,
        (None, None) => true,
        _ => false,
    };
    if !same_code {
        out.push(
            concat4(
                "exit: ",
                opt_code(a.exit_code).as_str(),
                " → ",
                opt_code(b.exit_code).as_str(),
            ),
        );
    }
    let ghost e2 = texts(out@);
    assert(e2 =~= e1 + line_if(
        a@.exit_code != b@.exit_code,
        "exit: "@ + code_text(a@.exit_code) + " → "@ + code_text(b@.exit_code),
    ));
    if !opt_eq(&a.failure, &b.failure) {
        out.push(
            concat4(
                "failure: ",
                or_text(&a.failure, "none").as_str(),
                " → ",
                or_text(&b.failure, "none").as_str(),
            ),
        );
    }
    let ghost e3 = texts(out@);
    assert(e3 =~= e2 + line_if(
        a@.failure != b@.failure,
        "failure: "@ + text_or(a@.failure, "none"@) + " → "@ + text_or(b@.failure, "none"@),
    ));
    let mut keys = touched_keys(a);
    let mut more = touched_keys(b);
    let ghost ka = texts(keys@);
    let ghost kb = texts(more@);
    keys.append(&mut more);
    assert(texts(keys@) =~= ka + kb);
    let sorted = sort_texts(&keys);
    let ghost sk = texts(sorted@);
    let mut i: usize = 0;
    assert(e3 + env_lines(sk.take(0), a@, b@) =~= e3);
    while i < sorted.len()
        invariant
            i <= sorted@.len(),
            sk == texts(sorted@),
            texts(out@) == e3 + env_lines(sk.take(i as int), a@, b@),
        decreases sorted@.len() - i,
    {
        assert(sk.take(i + 1).drop_last() =~= sk.take(i as int));
        assert(sk.take(i + 1).last() == sorted@[i as int]@);
        match diff_env(a, b, sorted[i].as_str()) {
            Some(l) => {
                let ghost done = texts(out@);
                out.push(l);
                assert(texts(out@) =~= done.push(l@));
                assert(texts(out@) =~= e3 + env_lines(sk.take(i + 1), a@, b@));
            },
            None => {},
        }
        i += 1;
    }
    assert(sk.take(i as int) =~= sk);
    let ghost e4 = texts(out@);
    let mut paths = touched_paths(a);
    let mut others = touched_paths(b);
    let ghost pa = texts(paths@);
    let ghost pb = texts(others@);
    paths.append(&mut others);
    assert(texts(paths@) =~= pa + pb);
    let sorted_paths = sort_texts(&paths);
    let ghost sp = texts(sorted_paths@);
    let mut j: usize = 0;
    assert(e4 + file_lines(sp.take(0), a@, b@) =~= e4);
    while j < sorted_paths.len()
        invariant
            j <= sorted_paths@.len(),
            sp == texts(sorted_paths@),
            texts(out@) == e4 + file_lines(sp.take(j as int), a@, b@),
        decreases sorted_paths@.len() - j,
    {
        assert(sp.take(j + 1).drop_last() =~= sp.take(j as int));
        assert(sp.take(j + 1).last() == sorted_paths@[j as int]@);
        match diff_file(a, b, sorted_paths[j].as_str()) {
            Some(l) => {
                let ghost done = texts(out@);
                out.push(l);
                assert(texts(out@) =~= done.push(l@));
                assert(texts(out@) =~= e4 + file_lines(sp.take(j + 1), a@, b@));
            },
            None => {},
        }
        j += 1;
    }
    assert(sp.take(j as int) =~= sp);
    out
}

// ---------------------------------------------------------------------------
// The list of recordings
// ---------------------------------------------------------------------------

/// A run put among runs, newest first; behind those that started with it.
pub open spec fn with_run(s: Seq<RunView>, r: RunView) -> Seq<RunView>
    decreases s.len(),
{
    if s.len() == 0 {
        seq![r]
    } else if s.last().started_unix_ms >= r.started_unix_ms {
        s.push(r)
    } else {
        with_run(s.drop_last(), r).push(s.last())
    }
}

/// The runs of the current shape, newest first.
pub open spec fn listed(rs: Seq<RunView>) -> Seq<RunView>
    decreases rs.len(),
{
    if rs.len() == 0 {
        Seq::empty()
    } else {
        let rest = listed(rs.drop_last());
        if rs.last().format_version == FORMAT_VERSION {
            with_run(rest, rs.last())
        } else {
            rest
        }
    }
}

/// Put a run among runs.
fn put_run(v: &mut Vec<RunRecord>, r: RunRecord)
    ensures
        run_views(final(v)@) == with_run(run_views(old(v)@), r@),
{
    let ghost all = run_views(v@);
    let n = v.len();
    let mut i: usize = n;
    assert(all.take(n as int) =~= all);
    assert(with_run(all, r@) + all.skip(n as int) =~= with_run(all, r@));
    while i > 0 && v[i - 1].started_unix_ms < r.started_unix_ms
        invariant
            i <= n,
            n == v@.len(),
            v@ == old(v)@,
            all == run_views(v@),
            with_run(all, r@) == with_run(all.take(i as int), r@) + all.skip(i as int),
        decreases i,
    {
        let ghost t = all.take(i as int);
        assert(t.last() == v@[i - 1]@);
        assert(t.drop_last() =~= all.take(i - 1));
        assert(with_run(t, r@) + all.skip(i as int) =~= with_run(all.take(i - 1), r@)
            + all.skip(i - 1));
        i -= 1;
    }
    let ghost t = all.take(i as int);
    if i > 0 {
        assert(t.last() == v@[i - 1]@);
    }
    v.insert(i, r);
    assert(run_views(v@) =~= t.push(r@) + all.skip(i as int));
    if i == 0 {
        assert(t =~= Seq::empty());
        assert(t.push(r@) =~= seq![r@]);
    }
}

/// The recordings among those found, newest first; records of another shape are
/// passed over.
pub fn list(found: Vec<RunRecord>) -> (r: Vec<RunRecord>)
    ensures
        run_views(r@) == listed(run_views(found@)),
{
    let ghost all = run_views(found@);
    let mut todo = found;
    let mut out: Vec<RunRecord> = Vec::new();
    let total = todo.len();
    let mut i: usize = 0;
    assert(all.take(0) =~= Seq::empty());
    assert(run_views(out@) =~= Seq::empty());
    while i < total
        invariant
            i <= total,
            total == all.len(),
            all == run_views(found@),
            todo@ == found@.skip(i as int),
            run_views(out@) == listed(all.take(i as int)),
        decreases total - i,
    {
        assert(all.take(i + 1).drop_last() =~= all.take(i as int));
        let r = todo.remove(0);
        assert(todo@ =~= found@.skip(i + 1));
        assert(all.take(i + 1).last() == r@);
        if r.format_version == FORMAT_VERSION {
            put_run(&mut out, r);
        }
        i += 1;
    }
    assert(all.take(i as int) =~= all);
    out
}

/// The `n`-th most recent recording among those found, counted from 1.
pub fn nth_recent(found: Vec<RunRecord>, n: usize) -> (r: Option<RunRecord>)
    ensures
        (match r {
            Some(x) => Some(x@),
            None => None,
        }) == ({
            let l = listed(run_views(found@));
            let i = if n == 0 {
                0
            } else {
                n - 1
            };
            if i < l.len() {
                Some(l[i])
            } else {
                None
            }
        }),
{
    let mut runs = list(found);
    let ghost l = run_views(runs@);
    let i: usize = if n == 0 {
        0
    } else {
        n - 1
    };
    if i < runs.len() {
        let x = runs.remove(i);
        assert(l[i as int] == x@);
        Some(x)
    } else {
        None
    }
}

/// Directories by the time in their names; others are passed over.
pub open spec fn dated(names: Seq<Text>) -> Seq<(nat, Text)>
    decreases names.len(),
{
    if names.len() == 0 {
        Seq::empty()
    } else {
        let rest = dated(names.drop_last());
        match unsigned_value(names.last(), u128::MAX as nat) {
            Some(ms) => with_date(rest, ms, names.last()),
            None => rest,
        }
    }
}

/// A directory put among directories, oldest first; behind those of the same time.
pub open spec fn with_date(s: Seq<(nat, Text)>, ms: nat, name: Text) -> Seq<(nat, Text)>
    decreases s.len(),
{
    if s.len() == 0 {
        seq![(ms, name)]
    } else if s.last().0 <= ms {
        s.push((ms, name))
    } else {
        with_date(s.drop_last(), ms, name).push(s.last())
    }
}

/// The directories to remove: the oldest beyond those that are kept.
pub open spec fn outdated(names: Seq<Text>) -> Seq<Text> {
    let d = dated(names);
    if d.len() > MAX_RUNS {
        d.take(d.len() - MAX_RUNS).map_values(|e: (nat, Text)| e.1)
    } else {
        Seq::empty()
    }
}

/// Dated names over views.
pub open spec fn date_views(v: Seq<(u128, String)>) -> Seq<(nat, Text)> {
    v.map_values(|e: (u128, String)| (e.0 as nat, e.1@))
}

/// Put a directory among directories.
fn put_date(v: &mut Vec<(u128, String)>, ms: u128, name: String)
    ensures
        date_views(final(v)@) == with_date(date_views(old(v)@), ms as nat, name@),
{
    let ghost all = date_views(v@);
    let n = v.len();
    let mut i: usize = n;
    assert(all.take(n as int) =~= all);
    assert(with_date(all, ms as nat, name@) + all.skip(n as int) =~= with_date(
        all,
        ms as nat,
        name@,
    ));
    while i > 0 && v[i - 1].0 > ms
        invariant
            i <= n,
            n == v@.len(),
            v@ == old(v)@,
            all == date_views(v@),
            with_date(all, ms as nat, name@) == with_date(all.take(i as int), ms as nat, name@)
                + all.skip(i as int),
        decreases i,
    {
        let ghost t = all.take(i as int);
        assert(t.last() == all[i - 1]);
        assert(t.drop_last() =~= all.take(i - 1));
        assert(with_date(t, ms as nat, name@) + all.skip(i as int) =~= with_date(
            all.take(i - 1),
            ms as nat,
            name@,
        ) + all.skip(i - 1));
        i -= 1;
    }
    let ghost t = all.take(i as int);
    if i > 0 {
        assert(t.last() == all[i - 1]);
    }
    v.insert(i, (ms, name));
    assert(date_views(v@) =~= t.push((ms as nat, name@)) + all.skip(i as int));
    if i == 0 {
        assert(t =~= Seq::empty());
        assert(t.push((ms as nat, name@)) =~= seq![(ms as nat, name@)]);
    }
}

/// The directories to remove among those of all recordings, so that only the most
/// recent ones remain.
pub fn prune(names: &Vec<String>) -> (r: Vec<String>)
    ensures
        texts(r@) == outdated(texts(names@)),
{
    let ghost all = texts(names@);
    let mut ds: Vec<(u128, String)> = Vec::new();
    let mut i: usize = 0;
    assert(all.take(0) =~= Seq::empty());
    assert(date_views(ds@) =~= Seq::empty());
    while i < names.len()
        invariant
            i <= names@.len(),
            all == texts(names@),
            date_views(ds@) == dated(all.take(i as int)),
        decreases names@.len() - i,
    {
        assert(all.take(i + 1).drop_last() =~= all.take(i as int));
        assert(all.take(i + 1).last() == names@[i as int]@);
        match read_unsigned(names[i].as_str(), u128::MAX) {
            Some(ms) => {
                put_date(&mut ds, ms, names[i].clone());
            },
            None => {},
        }
        i += 1;
    }
    assert(all.take(i as int) =~= all);
    let ghost d = date_views(ds@);
    let mut out: Vec<String> = Vec::new();
    if ds.len() > MAX_RUNS {
        let n = ds.len() - MAX_RUNS;
        let ghost want = outdated(all);
        let mut k: usize = 0;
        assert(texts(out@) =~= want.take(0));
        while k < n
            invariant
                k <= n,
                n == ds@.len() - MAX_RUNS,
                d == date_views(ds@),
                d == dated(all),
                want == outdated(all),
                texts(out@) == want.take(k as int),
            decreases n - k,
        {
            let ghost done = texts(out@);
            let s = ds[k].1.clone();
            assert(want[k as int] == s@);
            out.push(s);
            assert(texts(out@) =~= done.push(s@));
            assert(texts(out@) =~= want.take(k + 1));
            k += 1;
        }
        assert(want.take(k as int) =~= want);
    } else {
        assert(texts(out@) =~= Seq::empty());
    }
    out
}

/// A run refers to a content.
pub open spec fn refers(runs: Seq<RunView>, hash: Text) -> bool {
    exists|r: int, j: int, s: int, f: int|
        0 <= r < runs.len() && 0 <= j < runs[r].jobs.len() && 0 <= s < runs[r].jobs[j].steps.len()
            && 0 <= f < runs[r].jobs[j].steps[s].files.len()
            && #[trigger] runs[r].jobs[j].steps[s].files[f].hash == Some(hash)
}

/// Whether a run refers to a content.
fn has_hash(runs: &Vec<RunRecord>, hash: &str) -> (b: bool)
    ensures
        b == refers(run_views(runs@), hash@),
{
    let ghost rv = run_views(runs@);
    let mut r: usize = 0;
    while r < runs.len()
        invariant
            r <= runs@.len(),
            rv == run_views(runs@),
            forall|x: int, j: int, s: int, f: int|
                0 <= x < r && 0 <= j < rv[x].jobs.len() && 0 <= s < rv[x].jobs[j].steps.len() && 0
                    <= f < rv[x].jobs[j].steps[s].files.len()
                    ==> #[trigger] rv[x].jobs[j].steps[s].files[f].hash != Some(hash@),
        decreases runs@.len() - r,
    {
        let jobs = &runs[r].jobs;
        let ghost jv = job_views(jobs@);
        assert(rv[r as int].jobs == jv);
        let mut j: usize = 0;
        while j < jobs.len()
            invariant
                j <= jobs@.len(),
                r < runs@.len(),
                rv == run_views(runs@),
                jv == job_views(jobs@),
                rv[r as int].jobs == jv,
                forall|y: int, s: int, f: int|
                    0 <= y < j && 0 <= s < jv[y].steps.len() && 0 <= f < jv[y].steps[s].files.len()
                        ==> #[trigger] jv[y].steps[s].files[f].hash != Some(hash@),
            decreases jobs@.len() - j,
        {
            let steps = &jobs[j].steps;
            let ghost sv = step_views(steps@);
            assert(jv[j as int].steps == sv);
            let mut s: usize = 0;
            while s < steps.len()
                invariant
                    s <= steps@.len(),
                    j < jobs@.len(),
                    r < runs@.len(),
                    rv == run_views(runs@),
                    jv == job_views(jobs@),
                    rv[r as int].jobs == jv,
                    sv == step_views(steps@),
                    jv[j as int].steps == sv,
                    forall|z: int, f: int|
                        0 <= z < s && 0 <= f < sv[z].files.len()
                            ==> #[trigger] sv[z].files[f].hash != Some(hash@),
                decreases steps@.len() - s,
            {
                let files = &steps[s].files;
                let ghost fv = change_views(files@);
                assert(sv[s as int].files == fv);
                let mut f: usize = 0;
                while f < files.len()
                    invariant
                        f <= files@.len(),
                        s < steps@.len(),
                        j < jobs@.len(),
                        r < runs@.len(),
                        rv == run_views(runs@),
                        jv == job_views(jobs@),
                        rv[r as int].jobs == jv,
                        sv == step_views(steps@),
                        jv[j as int].steps == sv,
                        fv == change_views(files@),
                        sv[s as int].files == fv,
                        forall|w: int|
                            0 <= w < f ==> #[trigger] fv[w].hash != Some(hash@),
                    decreases files@.len() - f,
                {
                    assert(fv[f as int].hash == opt_text(files@[f as int].hash));
                    match &files[f].hash {
                        Some(h) => {
                            if str_eq(h.as_str(), hash) {
                                assert(rv[r as int].jobs[j as int].steps[s as int].files[f as int].hash
                                    == Some(hash@));
                                return true;
                            }
                        },
                        None => {},
                    }
                    f += 1;
                }
                s += 1;
            }
            j += 1;
        }
        r += 1;
    }
    false
}

/// The names of contents that no run refers to.
pub open spec fn unreferenced(names: Seq<Text>, runs: Seq<RunView>) -> Seq<Text>
    decreases names.len(),
{
    if names.len() == 0 {
        Seq::empty()
    } else {
        let rest = unreferenced(names.drop_last(), runs);
        if refers(runs, names.last()) {
            rest
        } else {
            rest.push(names.last())
        }
    }
}

/// The stored contents that no kept recording refers to, and that can be deleted.
pub fn gc_blobs(names: &Vec<String>, runs: &Vec<RunRecord>) -> (r: Vec<String>)
    ensures
        texts(r@) == unreferenced(texts(names@), run_views(runs@)),
{
    let ghost all = texts(names@);
    let mut out: Vec<String> = Vec::new();
    let mut i: usize = 0;
    assert(all.take(0) =~= Seq::empty());
    assert(texts(out@) =~= Seq::empty());
    while i < names.len()
        invariant
            i <= names@.len(),
            all == texts(names@),
            texts(out@) == unreferenced(all.take(i as int), run_views(runs@)),
        decreases names@.len() - i,
    {
        assert(all.take(i + 1).drop_last() =~= all.take(i as int));
        assert(all.take(i + 1).last() == names@[i as int]@);
        if !has_hash(runs, names[i].as_str()) {
            let ghost done = texts(out@);
            let s = names[i].clone();
            out.push(s);
            assert(texts(out@) =~= done.push(s@));
        }
        i += 1;
    }
    assert(all.take(i as int) =~= all);
    out
}

// ---------------------------------------------------------------------------
// Laws
// ---------------------------------------------------------------------------

/// The last change of a file decides what is left of it, whatever came before.
pub proof fn law_last_write_wins(a: Seq<FileChangeView>, b: Seq<FileChangeView>, path: Text)
    ensures
        touches(b, path) ==> last_hash(a + b, path) == last_hash(b, path),
        !touches(b, path) ==> last_hash(a + b, path) == last_hash(a, path),
{
    lemma_last_hash(a, b, path);
}

/// A file that was removed last has no content.
pub proof fn law_removed_files_are_gone(a: Seq<FileChangeView>, f: FileChangeView)
    requires
        f.status == "removed"@,
    ensures
        last_hash(a.push(f), f.path) is None,
{
}

/// A step compared with itself shows no difference.
pub proof fn law_identical_steps_have_no_changes(a: StepView)
    ensures
        changes_between(a, a) == Seq::<Text>::empty(),
{
    lemma_no_env_lines(sorted_texts(env_keys(a) + env_keys(a)), a);
    lemma_no_file_lines(sorted_texts(file_paths(a) + file_paths(a)), a);
    assert(changes_between(a, a) =~= Seq::empty());
}

/// A step differs from another in as many lines as the other differs from it.
pub proof fn law_changes_are_as_many_from_either_side(a: StepView, b: StepView)
    ensures
        changes_between(a, b).len() == changes_between(b, a).len(),
{
    law_sorting_forgets_the_order(env_keys(a), env_keys(b));
    law_sorting_forgets_the_order(file_paths(a), file_paths(b));
    lemma_env_lines_swap(sorted_texts(env_keys(a) + env_keys(b)), a, b);
    lemma_file_lines_swap(sorted_texts(file_paths(a) + file_paths(b)), a, b);
}

/// As many variables differ from either side.
proof fn lemma_env_lines_swap(keys: Seq<Text>, a: StepView, b: StepView)
    ensures
        env_lines(keys, a, b).len() == env_lines(keys, b, a).len(),
    decreases keys.len(),
{
    if keys.len() > 0 {
        lemma_env_lines_swap(keys.drop_last(), a, b);
    }
}

/// As many files differ from either side.
proof fn lemma_file_lines_swap(paths: Seq<Text>, a: StepView, b: StepView)
    ensures
        file_lines(paths, a, b).len() == file_lines(paths, b, a).len(),
    decreases paths.len(),
{
    if paths.len() > 0 {
        lemma_file_lines_swap(paths.drop_last(), a, b);
    }
}

/// No variable differs between a step and itself.
proof fn lemma_no_env_lines(keys: Seq<Text>, a: StepView)
    ensures
        env_lines(keys, a, a) == Seq::<Text>::empty(),
    decreases keys.len(),
{
    if keys.len() > 0 {
        lemma_no_env_lines(keys.drop_last(), a);
    }
}

/// No file differs between a step and itself.
proof fn lemma_no_file_lines(paths: Seq<Text>, a: StepView)
    ensures
        file_lines(paths, a, a) == Seq::<Text>::empty(),
    decreases paths.len(),
{
    if paths.len() > 0 {
        lemma_no_file_lines(paths.drop_last(), a);
    }
}

/// Newest first.
pub open spec fn descends(s: Seq<RunView>) -> bool {
    forall|i: int, j: int|
        0 <= i < j < s.len() ==> (#[trigger] s[i]).started_unix_ms >= (
        #[trigger] s[j]).started_unix_ms
}

/// Of the current shape.
pub open spec fn all_current(s: Seq<RunView>) -> bool {
    forall|i: int| 0 <= i < s.len() ==> (#[trigger] s[i]).format_version == FORMAT_VERSION
}

/// Putting a run in keeps the order.
proof fn lemma_with_run(s: Seq<RunView>, r: RunView)
    requires
        descends(s),
        all_current(s),
        r.format_version == FORMAT_VERSION,
    ensures
        descends(with_run(s, r)),
        all_current(with_run(s, r)),
        with_run(s, r).len() == s.len() + 1,
        forall|i: int|
            0 <= i < with_run(s, r).len() ==> (#[trigger] with_run(s, r)[i]).started_unix_ms
                >= r.started_unix_ms || (s.len() > 0 && with_run(s, r)[i].started_unix_ms
                >= s.last().started_unix_ms),
    decreases s.len(),
{
    if s.len() > 0 {
        let w = with_run(s, r);
        let d = s.drop_last();
        let last = s.last();
        assert forall|i: int, j: int| 0 <= i < j < d.len() implies (
        #[trigger] d[i]).started_unix_ms >= (#[trigger] d[j]).started_unix_ms by {
            assert(s[i].started_unix_ms >= s[j].started_unix_ms);
        }
        assert forall|i: int| 0 <= i < d.len() implies (#[trigger] d[i]).format_version
            == FORMAT_VERSION by {
            assert(s[i].format_version == FORMAT_VERSION);
        }
        assert(s[s.len() - 1].format_version == FORMAT_VERSION);
        if last.started_unix_ms >= r.started_unix_ms {
            assert forall|i: int, j: int| 0 <= i < j < w.len() implies (
            #[trigger] w[i]).started_unix_ms >= (#[trigger] w[j]).started_unix_ms by {
                if j < s.len() {
                    assert(s[i].started_unix_ms >= s[j].started_unix_ms);
                } else if i < s.len() - 1 {
                    assert(s[i].started_unix_ms >= s[s.len() - 1].started_unix_ms);
                }
            }
            assert forall|i: int| 0 <= i < w.len() implies (#[trigger] w[i]).started_unix_ms
                >= r.started_unix_ms || (s.len() > 0 && w[i].started_unix_ms
                >= s.last().started_unix_ms) by {
                if i < s.len() - 1 {
                    assert(s[i].started_unix_ms >= s[s.len() - 1].started_unix_ms);
                }
            }
            assert forall|i: int| 0 <= i < w.len() implies (#[trigger] w[i]).format_version
                == FORMAT_VERSION by {
                if i < s.len() {
                    assert(s[i].format_version == FORMAT_VERSION);
                }
            }
        } else {
            lemma_with_run(d, r);
            let v = with_run(d, r);
            assert forall|i: int, j: int| 0 <= i < j < w.len() implies (
            #[trigger] w[i]).started_unix_ms >= (#[trigger] w[j]).started_unix_ms by {
                if j < v.len() {
                    assert(v[i].started_unix_ms >= v[j].started_unix_ms);
                } else {
                    assert(w[i] == v[i]);
                    if d.len() > 0 {
                        assert(s[d.len() - 1].started_unix_ms >= s[s.len() - 1].started_unix_ms);
                    }
                }
            }
            assert forall|i: int| 0 <= i < w.len() implies (#[trigger] w[i]).started_unix_ms
                >= r.started_unix_ms || (s.len() > 0 && w[i].started_unix_ms
                >= s.last().started_unix_ms) by {
                if i < v.len() {
                    assert(w[i] == v[i]);
                    if d.len() > 0 {
                        assert(s[d.len() - 1].started_unix_ms >= s[s.len() - 1].started_unix_ms);
                    }
                }
            }
            assert forall|i: int| 0 <= i < w.len() implies (#[trigger] w[i]).format_version
                == FORMAT_VERSION by {
                if i < v.len() {
                    assert(v[i].format_version == FORMAT_VERSION);
                }
            }
        }
    }
}

/// Recordings are listed newest first, and all of them have the current shape.
pub proof fn law_listing_is_newest_first(rs: Seq<RunView>)
    ensures
        descends(listed(rs)),
        all_current(listed(rs)),
    decreases rs.len(),
{
    if rs.len() > 0 {
        law_listing_is_newest_first(rs.drop_last());
        if rs.last().format_version == FORMAT_VERSION {
            lemma_with_run(listed(rs.drop_last()), rs.last());
        }
    }
}

/// How many runs of the current shape started after a time.
pub open spec fn later_runs(rs: Seq<RunView>, t: u128) -> nat
    decreases rs.len(),
{
    if rs.len() == 0 {
        0
    } else {
        later_runs(rs.drop_last(), t) + if rs.last().format_version == FORMAT_VERSION
            && rs.last().started_unix_ms > t {
            1nat
        } else {
            0nat
        }
    }
}

/// A run put among runs is one more.
proof fn lemma_later_with_run(s: Seq<RunView>, r: RunView, t: u128)
    ensures
        later_runs(with_run(s, r), t) == later_runs(s.push(r), t),
    decreases s.len(),
{
    assert(s.push(r).drop_last() =~= s);
    if s.len() == 0 {
        assert(with_run(s, r) =~= s.push(r));
    } else if s.last().started_unix_ms >= r.started_unix_ms {
    } else {
        let d = s.drop_last();
        lemma_later_with_run(d, r, t);
        reveal_with_fuel(later_runs, 3);
        let w = with_run(d, r).push(s.last());
        assert(w.drop_last() =~= with_run(d, r));
        assert(w.last() == s.last());
        assert(d.push(r).drop_last() =~= d);
        assert(d.push(r).last() == r);
        assert(s.push(r).last() == r);
    }
}

/// The listing has as many later runs as there are.
proof fn lemma_later_listed(rs: Seq<RunView>, t: u128)
    ensures
        later_runs(listed(rs), t) == later_runs(rs, t),
    decreases rs.len(),
{
    if rs.len() > 0 {
        let d = rs.drop_last();
        lemma_later_listed(d, t);
        if rs.last().format_version == FORMAT_VERSION {
            lemma_later_with_run(listed(d), rs.last(), t);
            assert(listed(d).push(rs.last()).drop_last() =~= listed(d));
        }
    }
}

/// In a listing, the runs later than the one at a place stand before it.
proof fn lemma_later_in_order(l: Seq<RunView>, i: int, k: int)
    requires
        descends(l),
        all_current(l),
        0 <= i < l.len(),
        0 <= k <= l.len(),
    ensures
        later_runs(l.take(k), l[i].started_unix_ms) <= i,
        one_at_a_time(l) ==> later_runs(l.take(k), l[i].started_unix_ms) == if k <= i {
            k
        } else {
            i
        },
    decreases k,
{
    if k > 0 {
        lemma_later_in_order(l, i, k - 1);
        assert(l.take(k).drop_last() =~= l.take(k - 1));
        assert(l.take(k).last() == l[k - 1]);
        assert(l[k - 1].format_version == FORMAT_VERSION);
        if k - 1 < i {
            assert(l[k - 1].started_unix_ms >= l[i].started_unix_ms);
            lemma_later_bound(l.take(k), l[i].started_unix_ms);
        } else if k - 1 > i {
            assert(l[i].started_unix_ms >= l[k - 1].started_unix_ms);
        }
    }
}

/// No more runs are later than there are.
proof fn lemma_later_bound(rs: Seq<RunView>, t: u128)
    ensures
        later_runs(rs, t) <= rs.len(),
    decreases rs.len(),
{
    if rs.len() > 0 {
        lemma_later_bound(rs.drop_last(), t);
    }
}

/// No two runs started at the same time.
pub open spec fn one_at_a_time(s: Seq<RunView>) -> bool {
    forall|i: int, j: int|
        0 <= i < j < s.len() ==> (#[trigger] s[i]).started_unix_ms != (
        #[trigger] s[j]).started_unix_ms
}

/// Of the recordings, at most `n - 1` started later than the `n`-th most recent
/// one, counted from 1, and exactly that many where no two started at the same time.
pub proof fn law_the_nth_recent_has_fewer_later(rs: Seq<RunView>, n: int)
    requires
        1 <= n <= listed(rs).len(),
    ensures
        later_runs(rs, listed(rs)[n - 1].started_unix_ms) <= n - 1,
        one_at_a_time(listed(rs)) ==> later_runs(rs, listed(rs)[n - 1].started_unix_ms) == n - 1,
{
    let l = listed(rs);
    law_listing_is_newest_first(rs);
    lemma_later_listed(rs, l[n - 1].started_unix_ms);
    lemma_later_in_order(l, n - 1, l.len() as int);
    assert(l.take(l.len() as int) =~= l);
}

/// Oldest first.
pub open spec fn dates_ascend(s: Seq<(nat, Text)>) -> bool {
    forall|i: int, j: int| 0 <= i < j < s.len() ==> (#[trigger] s[i]).0 <= (#[trigger] s[j]).0
}

/// Putting a directory in keeps the order.
proof fn lemma_with_date(s: Seq<(nat, Text)>, ms: nat, name: Text)
    requires
        dates_ascend(s),
    ensures
        dates_ascend(with_date(s, ms, name)),
        forall|i: int|
            0 <= i < with_date(s, ms, name).len() ==> (#[trigger] with_date(s, ms, name)[i]).0 <= ms
                || (s.len() > 0 && with_date(s, ms, name)[i].0 <= s.last().0),
    decreases s.len(),
{
    if s.len() > 0 {
        let w = with_date(s, ms, name);
        let d = s.drop_last();
        assert forall|i: int, j: int| 0 <= i < j < d.len() implies (#[trigger] d[i]).0 <= (
        #[trigger] d[j]).0 by {
            assert(s[i].0 <= s[j].0);
        }
        if s.last().0 <= ms {
            assert forall|i: int, j: int| 0 <= i < j < w.len() implies (#[trigger] w[i]).0 <= (
            #[trigger] w[j]).0 by {
                if j < s.len() {
                    assert(s[i].0 <= s[j].0);
                } else if i < s.len() - 1 {
                    assert(s[i].0 <= s[s.len() - 1].0);
                }
            }
            assert forall|i: int| 0 <= i < w.len() implies (#[trigger] w[i]).0 <= ms || w[i].0
                <= s.last().0 by {
                if i < s.len() - 1 {
                    assert(s[i].0 <= s[s.len() - 1].0);
                }
            }
        } else {
            lemma_with_date(d, ms, name);
            let v = with_date(d, ms, name);
            if d.len() > 0 {
                assert(s[d.len() - 1].0 <= s[s.len() - 1].0);
            }
            assert forall|i: int, j: int| 0 <= i < j < w.len() implies (#[trigger] w[i]).0 <= (
            #[trigger] w[j]).0 by {
                if j < v.len() {
                    assert(v[i].0 <= v[j].0);
                } else {
                    assert(w[i] == v[i]);
                }
            }
            assert forall|i: int| 0 <= i < w.len() implies (#[trigger] w[i]).0 <= ms || w[i].0
                <= s.last().0 by {
                if i < v.len() {
                    assert(w[i] == v[i]);
                }
            }
        }
    }
}

/// Directories are dated oldest first.
proof fn lemma_dated(names: Seq<Text>)
    ensures
        dates_ascend(dated(names)),
    decreases names.len(),
{
    if names.len() > 0 {
        lemma_dated(names.drop_last());
        match unsigned_value(names.last(), u128::MAX as nat) {
            Some(ms) => {
                lemma_with_date(dated(names.drop_last()), ms, names.last());
            },
            None => {},
        }
    }
}

/// Pruning leaves the most recent recordings: no more of them than are kept, and
/// none that is older than one that goes.
pub proof fn law_pruning_keeps_the_newest(names: Seq<Text>)
    ensures
        dated(names).len() - outdated(names).len() <= MAX_RUNS,
        dated(names).len() <= MAX_RUNS ==> outdated(names).len() == 0,
        forall|i: int, j: int|
            0 <= i < outdated(names).len() <= j < dated(names).len() ==> (#[trigger] dated(
                names,
            )[i]).0 <= (#[trigger] dated(names)[j]).0,
{
    lemma_dated(names);
}

} // verus!
