//! What the expressions of a job and its steps can read.

use crate::expr::eval::{Context, ContextView, JobStatus};
use crate::members::{sealed, str_entries, to_members, Members};
use crate::model::Job;
use crate::numeral::{Numerals, NumeralsView};
use crate::scan::{trim, trimmed};
use crate::strmap::{map_entries, StrMap};
use crate::table::{distinct, lookup, put};
use crate::tables::{result_get, result_list, ResultMap};
use crate::text::{concat2, is_empty, opt_text, texts, Text};
use crate::value::{entries, lemma_value_view, Value, ValueView};
use vstd::prelude::*;

verus! {

/// How a job ended.
#[derive(Debug, Clone, Copy, PartialEq, Eq, Structural)]
pub enum JobResult {
    /// Every combination that ran succeeded.
    Success,
    /// A combination failed.
    Failed,
    /// Nothing ran.
    Skipped,
}

/// What stays the same during a whole run: the `github` and `runner` contexts,
/// the secrets, and the numerals known.
#[derive(Debug)]
pub struct Surroundings {
    /// The `github` context.
    pub github: Value,
    /// The `runner` context.
    pub runner: Value,
    /// The secrets by name.
    pub secrets: StrMap,
    /// Conversions between text and numbers.
    pub numerals: Numerals,
}

/// [`Surroundings`] over views.
pub struct SurroundingsView {
    /// The `github` context.
    pub github: ValueView,
    /// The `runner` context.
    pub runner: ValueView,
    /// The secrets by name.
    pub secrets: Seq<(Text, Text)>,
    /// Conversions between text and numbers.
    pub numerals: NumeralsView,
}

impl View for Surroundings {
    type V = SurroundingsView;

    open spec fn view(&self) -> SurroundingsView {
        SurroundingsView {
            github: self.github@,
            runner: self.runner@,
            secrets: map_entries(self.secrets),
            numerals: self.numerals@,
        }
    }
}

// ---------------------------------------------------------------------------
// Objects of strings
// ---------------------------------------------------------------------------

/// Named strings as an object.
pub open spec fn str_value(m: Seq<(Text, Text)>) -> ValueView {
    ValueView::Object(str_entries(m))
}

/// Named strings as an object.
pub fn str_object(map: &StrMap) -> (r: Value)
    ensures
        r@ == str_value(map_entries(*map)),
{
    let r = Value::Object(to_members(map));
    proof {
        lemma_value_view(r);
    }
    r
}

/// Named values as an object.
pub fn object(m: &Members) -> (r: Value)
    ensures
        r@ == ValueView::Object(m@),
{
    let r = Value::Object(m.copy());
    proof {
        lemma_value_view(r);
    }
    r
}

/// A string by its name in an object.
pub open spec fn string_at(v: ValueView, key: Text) -> Option<Text> {
    match v {
        ValueView::Object(m) => match lookup(m, key) {
            Some(ValueView::Str(s)) => Some(s),
            _ => None,
        },
        _ => None,
    }
}

/// The string that an object holds under a name.
pub fn object_get(v: &Value, key: &str) -> (r: Option<String>)
    ensures
        opt_text(r) == string_at(v@, key@),
{
    proof {
        lemma_value_view(*v);
    }
    match v {
        Value::Object(m) => match m.get(key) {
            Some(Value::Str(s)) => Some(s.clone()),
            _ => None,
        },
        _ => None,
    }
}

// ---------------------------------------------------------------------------
// Contexts
// ---------------------------------------------------------------------------

/// The name of a status.
pub open spec fn status_text(s: JobStatus) -> Text {
    match s {
        JobStatus::Success => "success"@,
        JobStatus::Failure => "failure"@,
        JobStatus::Cancelled => "cancelled"@,
    }
}

/// The name of a status.
pub fn status_str(s: JobStatus) -> (r: &'static str)
    ensures
        r@ == status_text(s),
{
    match s {
        JobStatus::Success => "success",
        JobStatus::Failure => "failure",
        JobStatus::Cancelled => "cancelled",
    }
}

/// The `job` context.
pub open spec fn job_value(s: JobStatus) -> ValueView {
    ValueView::Object(seq![("status"@, ValueView::Str(status_text(s)))])
}

/// The `job` context.
fn job_object(s: JobStatus) -> (r: Value)
    ensures
        r@ == job_value(s),
{
    let mut m: Vec<(String, Value)> = Vec::new();
    m.push(("status".to_owned(), Value::Str(status_str(s).to_owned())));
    assert(entries(m@) =~= seq![("status"@, ValueView::Str(status_text(s)))]);
    let r = Value::Object(sealed(m));
    proof {
        lemma_value_view(r);
    }
    r
}

/// What a step's expressions can read, without the matrix.
pub open spec fn plain_context(
    env: Seq<(Text, Text)>,
    s: SurroundingsView,
    steps: Seq<(Text, ValueView)>,
    inputs: Seq<(Text, Text)>,
    status: JobStatus,
) -> ContextView {
    ContextView {
        vars: seq![
            ("env"@, str_value(env)),
            ("github"@, s.github),
            ("runner"@, s.runner),
            ("job"@, job_value(status)),
            ("steps"@, ValueView::Object(steps)),
            ("secrets"@, str_value(s.secrets)),
            ("inputs"@, str_value(inputs)),
        ],
        status,
        numerals: s.numerals,
    }
}

/// What the expressions of an action's step can read.
pub fn make_context_with_inputs(
    env: &StrMap,
    s: &Surroundings,
    steps: &Members,
    inputs: &StrMap,
    status: JobStatus,
) -> (r: Context)
    ensures
        r@ == plain_context(map_entries(*env), s@, steps@, map_entries(*inputs), status),
{
    let mut vars: Vec<(String, Value)> = Vec::new();
    vars.push(("env".to_owned(), str_object(env)));
    vars.push(("github".to_owned(), s.github.copy()));
    vars.push(("runner".to_owned(), s.runner.copy()));
    vars.push(("job".to_owned(), job_object(status)));
    vars.push(("steps".to_owned(), object(steps)));
    vars.push(("secrets".to_owned(), str_object(&s.secrets)));
    vars.push(("inputs".to_owned(), str_object(inputs)));
    let ghost want = plain_context(
        map_entries(*env),
        s@,
        steps@,
        map_entries(*inputs),
        status,
    );
    assert(entries(vars@) =~= want.vars);
    proof {
        lemma_step_names(want.vars);
    }
    Context { vars: sealed(vars), status, numerals: s.numerals.copy() }
}

/// The names that a step's expressions can read are different.
proof fn lemma_step_names(e: Seq<(Text, ValueView)>)
    requires
        e.len() == 7,
        e[0].0 == "env"@,
        e[1].0 == "github"@,
        e[2].0 == "runner"@,
        e[3].0 == "job"@,
        e[4].0 == "steps"@,
        e[5].0 == "secrets"@,
        e[6].0 == "inputs"@,
    ensures
        distinct(e),
{
    reveal_strlit("env");
    reveal_strlit("github");
    reveal_strlit("runner");
    reveal_strlit("job");
    reveal_strlit("steps");
    reveal_strlit("secrets");
    reveal_strlit("inputs");
    assert("env"@.len() == 3);
    assert("github"@.len() == 6);
    assert("runner"@.len() == 6);
    assert("job"@.len() == 3);
    assert("steps"@.len() == 5);
    assert("secrets"@.len() == 7);
    assert("inputs"@.len() == 6);
    assert("env"@[0] != "job"@[0]);
    assert("github"@[0] != "runner"@[0]);
    assert("github"@[0] != "inputs"@[0]);
    assert("runner"@[0] != "inputs"@[0]);
}

/// A context with one more name.
pub open spec fn with_var(c: ContextView, name: Text, v: ValueView) -> ContextView {
    ContextView { vars: put(c.vars, name, v), status: c.status, numerals: c.numerals }
}

/// What a step's expressions can read, with the matrix and without inputs.
pub open spec fn step_context(
    env: Seq<(Text, Text)>,
    s: SurroundingsView,
    steps: Seq<(Text, ValueView)>,
    matrix: Seq<(Text, ValueView)>,
    status: JobStatus,
) -> ContextView {
    with_var(
        plain_context(env, s, steps, Seq::empty(), status),
        "matrix"@,
        ValueView::Object(matrix),
    )
}

/// What a step's expressions can read.
pub fn make_context(
    env: &StrMap,
    s: &Surroundings,
    steps: &Members,
    matrix: &Members,
    status: JobStatus,
) -> (r: Context)
    ensures
        r@ == step_context(map_entries(*env), s@, steps@, matrix@, status),
{
    let none = crate::strmap::map_new();
    let c = make_context_with_inputs(env, s, steps, &none, status);
    add_var(c, "matrix", object(matrix))
}

/// A context with one more name.
pub fn add_var(c: Context, name: &str, v: Value) -> (r: Context)
    ensures
        r@ == with_var(c@, name@, v@),
{
    let Context { vars, status, numerals } = c;
    let mut vars = vars;
    vars.insert(name.to_owned(), v);
    Context { vars, status, numerals }
}

// ---------------------------------------------------------------------------
// Job conditions
// ---------------------------------------------------------------------------

/// The name of a needed job's result; one that has none is skipped.
pub open spec fn result_text(r: Option<JobResult>) -> Text {
    match r {
        Some(JobResult::Success) => "success"@,
        Some(JobResult::Failed) => "failure"@,
        _ => "skipped"@,
    }
}

/// What is known of a needed job.
pub open spec fn need_value(r: Option<JobResult>) -> ValueView {
    ValueView::Object(
        seq![
            ("result"@, ValueView::Str(result_text(r))),
            ("outputs"@, ValueView::Object(Seq::empty())),
        ],
    )
}

/// The `needs` context.
pub open spec fn needs_entries(needs: Seq<Text>, results: Seq<(Text, JobResult)>) -> Seq<
    (Text, ValueView),
>
    decreases needs.len(),
{
    if needs.len() == 0 {
        Seq::empty()
    } else {
        put(
            needs_entries(needs.drop_last(), results),
            needs.last(),
            need_value(lookup(results, needs.last())),
        )
    }
}

/// What is known of a needed job.
fn need_object(r: Option<&JobResult>) -> (v: Value)
    ensures
        v@ == need_value(
            match r {
                Some(x) => Some(*x),
                None => None,
            },
        ),
{
    let t = match r {
        Some(JobResult::Success) => "success",
        Some(JobResult::Failed) => "failure",
        _ => "skipped",
    };
    let nothing = Value::Object(Members::new());
    let mut m: Vec<(String, Value)> = Vec::new();
    proof {
        lemma_value_view(nothing);
    }
    m.push(("result".to_owned(), Value::Str(t.to_owned())));
    m.push(("outputs".to_owned(), nothing));
    proof {
        let known = match r {
            Some(x) => Some(*x),
            None => None,
        };
        assert(entries(m@) =~= need_value(known)->Object_0);
        reveal_strlit("result");
        reveal_strlit("outputs");
        assert("result"@.len() == 6);
        assert("outputs"@.len() == 7);
    }
    let v = Value::Object(sealed(m));
    proof {
        lemma_value_view(v);
    }
    v
}

/// The `needs` context.
fn needs_object(needs: &Vec<String>, results: &ResultMap) -> (r: Value)
    ensures
        r@ == ValueView::Object(needs_entries(texts(needs@), result_list(*results))),
{
    let ghost all = texts(needs@);
    let mut m = Members::new();
    let mut i: usize = 0;
    assert(all.take(0) =~= Seq::empty());
    while i < needs.len()
        invariant
            i <= needs@.len(),
            all == texts(needs@),
            m@ == needs_entries(all.take(i as int), result_list(*results)),
        decreases needs@.len() - i,
    {
        assert(all.take(i + 1).drop_last() =~= all.take(i as int));
        assert(all.take(i + 1).last() == needs@[i as int]@);
        let v = need_object(result_get(results, needs[i].as_str()));
        m.insert(needs[i].clone(), v);
        i += 1;
    }
    assert(all.take(needs@.len() as int) =~= all);
    let r = Value::Object(m);
    proof {
        lemma_value_view(r);
    }
    r
}

/// What a job's condition can read.
pub open spec fn job_context(
    env: Seq<(Text, Text)>,
    results: Seq<(Text, JobResult)>,
    needs: Seq<Text>,
    s: SurroundingsView,
    matrix: Seq<(Text, Text)>,
    status: JobStatus,
) -> ContextView {
    ContextView {
        vars: seq![
            ("github"@, s.github),
            ("runner"@, s.runner),
            ("env"@, str_value(env)),
            ("needs"@, ValueView::Object(needs_entries(needs, results))),
            ("job"@, job_value(status)),
            ("secrets"@, str_value(s.secrets)),
            ("matrix"@, str_value(matrix)),
        ],
        status,
        numerals: s.numerals,
    }
}

/// What a job's condition can read: the workflow's environment, the results of
/// the jobs that it needs, and the combination it would run with.
pub fn make_job_context(
    env: &StrMap,
    results: &ResultMap,
    job: &Job,
    s: &Surroundings,
    matrix: &StrMap,
    status: JobStatus,
) -> (r: Context)
    ensures
        r@ == job_context(
            map_entries(*env),
            result_list(*results),
            job@.needs,
            s@,
            map_entries(*matrix),
            status,
        ),
{
    let mut vars: Vec<(String, Value)> = Vec::new();
    vars.push(("github".to_owned(), s.github.copy()));
    vars.push(("runner".to_owned(), s.runner.copy()));
    vars.push(("env".to_owned(), str_object(env)));
    vars.push(("needs".to_owned(), needs_object(&job.needs, results)));
    vars.push(("job".to_owned(), job_object(status)));
    vars.push(("secrets".to_owned(), str_object(&s.secrets)));
    vars.push(("matrix".to_owned(), str_object(matrix)));
    let ghost want = job_context(
        map_entries(*env),
        result_list(*results),
        job@.needs,
        s@,
        map_entries(*matrix),
        status,
    );
    proof {
        assert(entries(vars@) =~= want.vars);
        reveal_strlit("github");
        reveal_strlit("runner");
        reveal_strlit("env");
        reveal_strlit("needs");
        reveal_strlit("job");
        reveal_strlit("secrets");
        reveal_strlit("matrix");
        assert("github"@.len() == 6);
        assert("runner"@.len() == 6);
        assert("env"@.len() == 3);
        assert("needs"@.len() == 5);
        assert("job"@.len() == 3);
        assert("secrets"@.len() == 7);
        assert("matrix"@.len() == 6);
        assert("env"@[0] != "job"@[0]);
        assert("github"@[0] != "runner"@[0]);
        assert("github"@[0] != "matrix"@[0]);
        assert("runner"@[0] != "matrix"@[0]);
    }
    Context { vars: sealed(vars), status, numerals: s.numerals.copy() }
}

// ---------------------------------------------------------------------------
// The `github` and `runner` contexts
// ---------------------------------------------------------------------------

/// What a command printed, trimmed; nothing where it failed or printed blanks.
pub open spec fn answer(ok: bool, out: Text) -> Option<Text> {
    if !ok || trimmed(out).len() == 0 {
        None
    } else {
        Some(trimmed(out))
    }
}

/// What `git` answered, given whether it succeeded and what it printed.
pub fn git_answer(ok: bool, out: &str) -> (r: Option<String>)
    ensures
        opt_text(r) == answer(ok, out@),
{
    if !ok {
        return None;
    }
    let t = trim(out);
    if is_empty(t.as_str()) {
        None
    } else {
        Some(t)
    }
}

/// The entries that a commit brings.
pub open spec fn sha_entries(sha: Option<Text>) -> Seq<(Text, ValueView)> {
    match sha {
        Some(s) => seq![("sha"@, ValueView::Str(s))],
        None => Seq::empty(),
    }
}

/// The entries that a branch brings.
pub open spec fn branch_entries(branch: Option<Text>) -> Seq<(Text, ValueView)> {
    match branch {
        Some(b) => seq![
            ("ref_name"@, ValueView::Str(b)),
            ("ref"@, ValueView::Str("refs/heads/"@ + b)),
            ("ref_type"@, ValueView::Str("branch"@)),
        ],
        None => Seq::empty(),
    }
}

/// The `github` context of a local run, which passes for a push.
pub open spec fn github_value(workspace: Text, sha: Option<Text>, branch: Option<Text>) -> ValueView {
    ValueView::Object(
        seq![
            ("workspace"@, ValueView::Str(workspace)),
            ("event_name"@, ValueView::Str("push"@)),
        ] + sha_entries(sha) + branch_entries(branch),
    )
}

/// The `github` context, given the workspace and what `git` answered for the
/// commit and the branch.
pub fn build_github(workspace: &str, sha: &Option<String>, branch: &Option<String>) -> (r: Value)
    ensures
        r@ == github_value(workspace@, opt_text(*sha), opt_text(*branch)),
{
    let mut m: Vec<(String, Value)> = Vec::new();
    m.push(("workspace".to_owned(), Value::Str(workspace.to_owned())));
    m.push(("event_name".to_owned(), Value::Str("push".to_owned())));
    match sha {
        Some(s) => {
            m.push(("sha".to_owned(), Value::Str(s.clone())));
        },
        None => {},
    }
    match branch {
        Some(b) => {
            m.push(("ref_name".to_owned(), Value::Str(b.clone())));
            m.push(("ref".to_owned(), Value::Str(concat2("refs/heads/", b.as_str()))));
            m.push(("ref_type".to_owned(), Value::Str("branch".to_owned())));
        },
        None => {},
    }
    proof {
        assert(entries(m@) =~= github_value(
            workspace@,
            opt_text(*sha),
            opt_text(*branch),
        )->Object_0);
        reveal_strlit("workspace");
        reveal_strlit("event_name");
        reveal_strlit("sha");
        reveal_strlit("ref_name");
        reveal_strlit("ref");
        reveal_strlit("ref_type");
        assert("workspace"@.len() == 9);
        assert("event_name"@.len() == 10);
        assert("sha"@.len() == 3);
        assert("ref_name"@.len() == 8);
        assert("ref"@.len() == 3);
        assert("ref_type"@.len() == 8);
        assert("sha"@[0] != "ref"@[0]);
        assert("ref_name"@[4] != "ref_type"@[4]);
    }
    let r = Value::Object(sealed(m));
    proof {
        lemma_value_view(r);
    }
    r
}

/// The name of an operating system, from the one that the compiler gives it.
pub open spec fn os_label(os: Text) -> Text {
    if os == "linux"@ {
        "Linux"@
    } else if os == "macos"@ {
        "macOS"@
    } else if os == "windows"@ {
        "Windows"@
    } else {
        "Unknown"@
    }
}

/// The name of an architecture, from the one that the compiler gives it.
pub open spec fn arch_label(arch: Text) -> Text {
    if arch == "x86_64"@ {
        "X64"@
    } else if arch == "aarch64"@ {
        "ARM64"@
    } else {
        arch
    }
}

/// The `runner` context.
pub open spec fn runner_value(os: Text, arch: Text, temp: Text) -> ValueView {
    ValueView::Object(
        seq![
            ("os"@, ValueView::Str(os_label(os))),
            ("arch"@, ValueView::Str(arch_label(arch))),
            ("temp"@, ValueView::Str(temp)),
        ],
    )
}

/// The `runner` context, given the operating system and the architecture as the
/// compiler names them, and the directory of temporary files.
pub fn build_runner(os: &str, arch: &str, temp: &str) -> (r: Value)
    ensures
        r@ == runner_value(os@, arch@, temp@),
{
    let o = if crate::text::str_eq(os, "linux") {
        "Linux"
    } else if crate::text::str_eq(os, "macos") {
        "macOS"
    } else if crate::text::str_eq(os, "windows") {
        "Windows"
    } else {
        "Unknown"
    };
    let a = if crate::text::str_eq(arch, "x86_64") {
        "X64"
    } else if crate::text::str_eq(arch, "aarch64") {
        "ARM64"
    } else {
        arch
    };
    let mut m: Vec<(String, Value)> = Vec::new();
    m.push(("os".to_owned(), Value::Str(o.to_owned())));
    m.push(("arch".to_owned(), Value::Str(a.to_owned())));
    m.push(("temp".to_owned(), Value::Str(temp.to_owned())));
    proof {
        assert(entries(m@) =~= runner_value(os@, arch@, temp@)->Object_0);
        reveal_strlit("os");
        reveal_strlit("arch");
        reveal_strlit("temp");
        assert("os"@.len() == 2);
        assert("arch"@.len() == 4);
        assert("temp"@.len() == 4);
        assert("arch"@[0] != "temp"@[0]);
    }
    let r = Value::Object(sealed(m));
    proof {
        lemma_value_view(r);
    }
    r
}

} // verus!
