//! One step of a job: whether it runs, with what, and what follows from how it
//! ended.

use crate::envfile::{key_values, parse_key_values, parse_path_additions, path_lines};
use crate::envfile::{EnvFileError, EnvFileFault};
use crate::exec::context::{
    make_context, step_context, str_object, str_value, Surroundings,
    SurroundingsView,
};
use crate::exec::shell::{cwd_of, resolve_cwd, shell_of, step_shell};
use crate::expr::error::{ExprError, Fault};
use crate::expr::eval::{Context, ContextView, JobStatus};
use crate::expr::{
    asks_status, close_at, evaluate, evaluated, find_close, interpolate, interpolated, opens_at,
    references_status_function,
};
use crate::members::{sealed, str_entries, to_members, Members};
use crate::model::{
    Conditional, ConditionalView, Job, JobView, Step, StepAction, StepActionView, StepView,
    Workflow, WorkflowView,
};
use crate::numtext::{decimal, i64_text, int_text, usize_text};
use crate::scan::{lines, lines_of, trim, trimmed};
use crate::strmap::{map_copy, map_entries, map_entry, map_len, map_new, map_put, put_pairs, StrMap};
use crate::table::{collected, lookup, put, put_all};
use crate::text::{
    after_prefix, before_suffix, chars_of, concat3, concat4, concat5, is_at, is_empty, pairs,
    strip_prefix, strip_suffix, texts, Text,
};
use crate::value::{entries, lemma_value_view, truthy, Value, ValueView};
use vstd::prelude::*;

verus! {

/// What a job has come to as its steps run.
#[derive(Debug)]
pub struct JobState {
    /// The workflow's and the job's variables and those that steps added.
    pub env: StrMap,
    /// Additions to `PATH`, the newest first.
    pub path: Vec<String>,
    /// The `steps` context.
    pub steps: Members,
    /// The `matrix` context.
    pub matrix: Members,
    /// The status so far.
    pub status: JobStatus,
}

/// [`JobState`] over views.
#[verifier::ext_equal]
pub struct JobStateView {
    /// The variables.
    pub env: Seq<(Text, Text)>,
    /// Additions to `PATH`, the newest first.
    pub path: Seq<Text>,
    /// The `steps` context.
    pub steps: Seq<(Text, ValueView)>,
    /// The `matrix` context.
    pub matrix: Seq<(Text, ValueView)>,
    /// The status so far.
    pub status: JobStatus,
}

impl View for JobState {
    type V = JobStateView;

    open spec fn view(&self) -> JobStateView {
        JobStateView {
            env: map_entries(self.env),
            path: texts(self.path@),
            steps: self.steps@,
            matrix: self.matrix@,
            status: self.status,
        }
    }
}

/// An environment, or why there is none, over views.
pub open spec fn got_env(r: Result<StrMap, ExprError>) -> Result<Seq<(Text, Text)>, Fault> {
    match r {
        Ok(m) => Ok(map_entries(m)),
        Err(e) => Err(e@),
    }
}

// ---------------------------------------------------------------------------
// Environments
// ---------------------------------------------------------------------------

/// A variable set to what a template makes in a context.
pub open spec fn put_filled(
    m: Seq<(Text, Text)>,
    e: (Text, Text),
    c: ContextView,
) -> Result<Seq<(Text, Text)>, Fault> {
    match interpolated(e.1, c) {
        Ok(t) => Ok(put(m, e.0, t)),
        Err(f) => Err(f),
    }
}

/// Variables added in turn, each of which can refer to those before it.
pub open spec fn layered(
    env: Seq<(Text, Text)>,
    add: Seq<(Text, Text)>,
    s: SurroundingsView,
    matrix: Seq<(Text, ValueView)>,
) -> Result<Seq<(Text, Text)>, Fault>
    decreases add.len(),
{
    if add.len() == 0 {
        Ok(env)
    } else {
        match layered(env, add.drop_last(), s, matrix) {
            Err(f) => Err(f),
            Ok(m) => put_filled(
                m,
                add.last(),
                step_context(m, s, Seq::empty(), matrix, JobStatus::Success),
            ),
        }
    }
}

/// An error stays, whatever follows.
proof fn lemma_layered_error(
    env: Seq<(Text, Text)>,
    add: Seq<(Text, Text)>,
    s: SurroundingsView,
    matrix: Seq<(Text, ValueView)>,
    i: int,
)
    requires
        0 <= i <= add.len(),
        layered(env, add.take(i), s, matrix) is Err,
    ensures
        layered(env, add, s, matrix) == layered(env, add.take(i), s, matrix),
    decreases add.len(),
{
    if i == add.len() {
        assert(add.take(i) =~= add);
    } else {
        assert(add.drop_last().take(i) =~= add.take(i));
        lemma_layered_error(env, add.drop_last(), s, matrix, i);
    }
}

/// Interpolate and add variables in turn; each can refer to those before it.
pub fn layer_env(
    env: StrMap,
    add: &StrMap,
    s: &Surroundings,
    matrix: &Members,
) -> (r: Result<StrMap, ExprError>)
    ensures
        got_env(r) == layered(map_entries(env), map_entries(*add), s@, matrix@),
{
    let ghost start = map_entries(env);
    let ghost all = map_entries(*add);
    let n = map_len(add);
    let none = Members::new();
    let mut m = env;
    let mut i: usize = 0;
    while i < n
        invariant
            i <= n,
            n == all.len(),
            all == map_entries(*add),
            start == map_entries(env),
            none@ == Seq::<(Text, ValueView)>::empty(),
            layered(start, all.take(i as int), s@, matrix@) == Ok::<
                Seq<(Text, Text)>,
                Fault,
            >(map_entries(m)),
        decreases n - i,
    {
        let (k, v) = map_entry(add, i);
        let c = make_context(&m, s, &none, matrix, JobStatus::Success);
        assert(all.take(i + 1).drop_last() =~= all.take(i as int));
        assert(all.take(i + 1).last() == (k@, v@));
        match interpolate(v.as_str(), &c) {
            Ok(t) => map_put(&mut m, k, t),
            Err(e) => {
                proof {
                    lemma_layered_error(start, all, s@, matrix@, i + 1);
                }
                return Err(e);
            },
        }
        i += 1;
    }
    assert(all.take(n as int) =~= all);
    Ok(m)
}

/// Variables added in turn, all filled in one context.
pub open spec fn overlaid(
    env: Seq<(Text, Text)>,
    add: Seq<(Text, Text)>,
    c: ContextView,
) -> Result<Seq<(Text, Text)>, Fault>
    decreases add.len(),
{
    if add.len() == 0 {
        Ok(env)
    } else {
        match overlaid(env, add.drop_last(), c) {
            Err(f) => Err(f),
            Ok(m) => put_filled(m, add.last(), c),
        }
    }
}

/// An error stays, whatever follows.
proof fn lemma_overlaid_error(
    env: Seq<(Text, Text)>,
    add: Seq<(Text, Text)>,
    c: ContextView,
    i: int,
)
    requires
        0 <= i <= add.len(),
        overlaid(env, add.take(i), c) is Err,
    ensures
        overlaid(env, add, c) == overlaid(env, add.take(i), c),
    decreases add.len(),
{
    if i == add.len() {
        assert(add.take(i) =~= add);
    } else {
        assert(add.drop_last().take(i) =~= add.take(i));
        lemma_overlaid_error(env, add.drop_last(), c, i);
    }
}

/// Interpolate and add variables, all in one context.
pub fn overlay_env(env: StrMap, add: &StrMap, c: &Context) -> (r: Result<StrMap, ExprError>)
    ensures
        got_env(r) == overlaid(map_entries(env), map_entries(*add), c@),
{
    let ghost start = map_entries(env);
    let ghost all = map_entries(*add);
    let n = map_len(add);
    let mut m = env;
    let mut i: usize = 0;
    while i < n
        invariant
            i <= n,
            n == all.len(),
            all == map_entries(*add),
            start == map_entries(env),
            overlaid(start, all.take(i as int), c@) == Ok::<Seq<(Text, Text)>, Fault>(
                map_entries(m),
            ),
        decreases n - i,
    {
        let (k, v) = map_entry(add, i);
        assert(all.take(i + 1).drop_last() =~= all.take(i as int));
        assert(all.take(i + 1).last() == (k@, v@));
        match interpolate(v.as_str(), c) {
            Ok(t) => map_put(&mut m, k, t),
            Err(e) => {
                proof {
                    lemma_overlaid_error(start, all, c@, i + 1);
                }
                return Err(e);
            },
        }
        i += 1;
    }
    assert(all.take(n as int) =~= all);
    Ok(m)
}

/// A job before its first step, or why it cannot start: the workflow's and then
/// the job's variables are filled in.
pub open spec fn started(
    wf_env: Seq<(Text, Text)>,
    job_env: Seq<(Text, Text)>,
    matrix: Seq<(Text, Text)>,
    s: SurroundingsView,
) -> Result<JobStateView, Fault> {
    let m = str_entries(matrix);
    match layered(Seq::empty(), wf_env, s, m) {
        Err(f) => Err(f),
        Ok(a) => match layered(a, job_env, s, m) {
            Err(f) => Err(f),
            Ok(b) => Ok(
                JobStateView {
                    env: b,
                    path: Seq::empty(),
                    steps: Seq::empty(),
                    matrix: m,
                    status: JobStatus::Success,
                },
            ),
        },
    }
}

/// The state of a job before its first step.
pub fn start_job(wf_env: &StrMap, job_env: &StrMap, matrix: &StrMap, s: &Surroundings) -> (r: Result<
    JobState,
    ExprError,
>)
    ensures
        (match r {
            Ok(j) => Ok(j@),
            Err(e) => Err(e@),
        }) == started(map_entries(*wf_env), map_entries(*job_env), map_entries(*matrix), s@),
{
    let m = to_members(matrix);
    let a = match layer_env(map_new(), wf_env, s, &m) {
        Ok(a) => a,
        Err(e) => {
            return Err(e);
        },
    };
    let b = match layer_env(a, job_env, s, &m) {
        Ok(b) => b,
        Err(e) => {
            return Err(e);
        },
    };
    let path: Vec<String> = Vec::new();
    assert(texts(path@) =~= Seq::empty());
    Ok(JobState { env: b, path, steps: Members::new(), matrix: m, status: JobStatus::Success })
}

/// What a step's expressions can read, given its environment.
pub open spec fn context_in(env: Seq<(Text, Text)>, st: JobStateView, s: SurroundingsView) -> ContextView {
    step_context(env, s, st.steps, st.matrix, st.status)
}

/// What a step's expressions can read, given its environment.
pub fn context_for(env: &StrMap, st: &JobState, s: &Surroundings) -> (r: Context)
    ensures
        r@ == context_in(map_entries(*env), st@, s@),
{
    make_context(env, s, &st.steps, &st.matrix, st.status)
}

/// The environment of a step: the job's, with the step's own over it.
pub fn step_env(step: &Step, st: &JobState, s: &Surroundings) -> (r: Result<StrMap, ExprError>)
    ensures
        got_env(r) == overlaid(st@.env, step@.env, context_in(st@.env, st@, s@)),
{
    let c = context_for(&st.env, st, s);
    overlay_env(map_copy(&st.env), &step.env, &c)
}

// ---------------------------------------------------------------------------
// Conditions
// ---------------------------------------------------------------------------

/// The final `}}` closes another span than the first: one that opens behind the
/// end of the first.
pub open spec fn ends_in_another_span(s: Text) -> bool {
    close_at(s, 3, false) matches Some(j) && exists|k: int|
        j + 2 <= k && #[trigger] opens_at(s, k) && close_at(s, k + 3, false) == Some(s.len() - 2)
}

/// A condition without the `${{ }}` around it. Two spans side by side are no
/// wrapper and stay as they are.
pub open spec fn unwrapped(s: Text) -> Text {
    match after_prefix(s, "${{"@) {
        None => s,
        Some(rest) => match before_suffix(rest, "}}"@) {
            None => s,
            Some(inner) => if ends_in_another_span(s) {
                s
            } else {
                trimmed(inner)
            },
        },
    }
}

/// Whether the final `}}` closes another span than the first.
fn has_another_span(s: &str) -> (r: bool)
    requires
        opens_at(s@, 0),
    ensures
        r == ends_in_another_span(s@),
{
    let v = chars_of(s);
    let open = chars_of("${{");
    let n = v.len();
    proof {
        reveal_strlit("${{");
    }
    let j = match find_close(&v, 3) {
        Some(j) => j,
        None => {
            return false;
        },
    };
    let mut k: usize = j + 2;
    while k < n
        invariant
            j + 2 <= k <= n,
            n == v@.len(),
            v@ == s@,
            open@ == "${{"@,
            open@.len() == 3,
            close_at(s@, 3, false) == Some(j as int),
            forall|i: int|
                j + 2 <= i < k && #[trigger] opens_at(s@, i) ==> close_at(s@, i + 3, false)
                    != Some(s@.len() - 2),
        decreases n - k,
    {
        if is_at(&v, &open, k) {
            match find_close(&v, k + 3) {
                Some(e) => if e + 2 == n {
                    assert(opens_at(s@, k as int));
                    return true;
                },
                None => {},
            }
        }
        k += 1;
    }
    false
}

/// Strip a single `${{ }}` around a condition.
pub fn strip_expr_wrapper(s: &str) -> (r: String)
    ensures
        r@ == unwrapped(s@),
{
    match strip_prefix(s, "${{") {
        None => s.to_owned(),
        Some(rest) => match strip_suffix(rest.as_str(), "}}") {
            None => s.to_owned(),
            Some(inner) => if has_another_span(s) {
                s.to_owned()
            } else {
                trim(inner.as_str())
            },
        },
    }
}

/// A truth value, or why there is none, over views.
pub open spec fn got_bool(r: Result<bool, ExprError>) -> Result<bool, Fault> {
    match r {
        Ok(b) => Ok(b),
        Err(e) => Err(e@),
    }
}

/// Whether a condition holds: unless it asks for the status itself, it holds only
/// while nothing has failed.
pub open spec fn condition(raw: Text, c: ContextView) -> Result<bool, Fault> {
    let inner = unwrapped(trimmed(raw));
    match evaluated(inner, c) {
        Err(f) => Err(f),
        Ok(v) => match asks_status(inner, c.numerals) {
            Err(f) => Err(f),
            Ok(asks) => Ok((asks || c.status == JobStatus::Success) && truthy(v)),
        },
    }
}

/// Evaluate an `if:` condition of a step or a job.
pub fn eval_condition(raw: &str, c: &Context) -> (r: Result<bool, ExprError>)
    ensures
        got_bool(r) == condition(raw@, c@),
{
    let inner = strip_expr_wrapper(trim(raw).as_str());
    let v = match evaluate(inner.as_str(), c) {
        Ok(v) => v,
        Err(e) => {
            return Err(e);
        },
    };
    match references_status_function(inner.as_str(), &c.numerals) {
        Err(e) => Err(e),
        Ok(asks) => Ok((asks || c.status == JobStatus::Success) && v.is_truthy()),
    }
}

/// Whether something runs: by its condition, or else while nothing has failed.
pub open spec fn runs(if_cond: Option<Text>, c: ContextView) -> Result<bool, Fault> {
    match if_cond {
        Some(raw) => condition(raw, c),
        None => Ok(c.status == JobStatus::Success),
    }
}

/// Whether a step runs.
pub fn step_runs(step: &Step, c: &Context) -> (r: Result<bool, ExprError>)
    ensures
        got_bool(r) == runs(step@.if_cond, c@),
{
    match &step.if_cond {
        Some(raw) => eval_condition(raw.as_str(), c),
        None => Ok(c.status == JobStatus::Success),
    }
}

/// Whether the job goes on when a step fails; an expression can have a `${{ }}`
/// around it.
pub open spec fn goes_on(step: StepView, c: ContextView) -> Result<bool, Fault> {
    match step.continue_on_error {
        ConditionalView::Bool(b) => Ok(b),
        ConditionalView::Expr(e) => match evaluated(unwrapped(trimmed(e)), c) {
            Ok(v) => Ok(truthy(v)),
            Err(f) => Err(f),
        },
    }
}

/// Whether the job goes on when a step fails.
pub fn step_continues_on_error(step: &Step, c: &Context) -> (r: Result<bool, ExprError>)
    ensures
        got_bool(r) == goes_on(step@, c@),
{
    match &step.continue_on_error {
        Conditional::Bool(b) => Ok(*b),
        Conditional::Expr(e) => {
            let inner = strip_expr_wrapper(trim(e.as_str()).as_str());
            match evaluate(inner.as_str(), c) {
                Ok(v) => Ok(v.is_truthy()),
                Err(e) => Err(e),
            }
        },
    }
}

// ---------------------------------------------------------------------------
// Labels
// ---------------------------------------------------------------------------

/// The first line that is not blank, trimmed.
pub open spec fn first_line(ls: Seq<Text>) -> Text
    decreases ls.len(),
{
    if ls.len() == 0 {
        Seq::empty()
    } else if trimmed(ls[0]).len() > 0 {
        trimmed(ls[0])
    } else {
        first_line(ls.skip(1))
    }
}

/// What a step is called: its name, the first line of its script, or its action.
pub open spec fn label_of(step: StepView) -> Text {
    match step.name {
        Some(n) => n,
        None => match step.action {
            StepActionView::Run(script) => first_line(lines_of(script)),
            StepActionView::Uses(action, _) => action,
        },
    }
}

/// What a step is called.
pub fn step_label(step: &Step) -> (r: String)
    ensures
        r@ == label_of(step@),
{
    match &step.name {
        Some(n) => {
            return n.clone();
        },
        None => {},
    }
    match &step.action {
        StepAction::Run { script } => {
            let ls = lines(script.as_str());
            let ghost all = texts(ls@);
            assert(all.skip(0) =~= all);
            let mut i: usize = 0;
            while i < ls.len()
                invariant
                    i <= ls@.len(),
                    all == texts(ls@),
                    first_line(all) == first_line(all.skip(i as int)),
                    label_of(step@) == first_line(all),
                decreases ls@.len() - i,
            {
                assert(all.skip(i as int)[0] == ls@[i as int]@);
                assert(all.skip(i as int).skip(1) =~= all.skip(i + 1));
                let t = trim(ls[i].as_str());
                if !is_empty(t.as_str()) {
                    return t;
                }
                i += 1;
            }
            let e = String::new();
            assert(e@ =~= Seq::empty());
            e
        },
        StepAction::Uses { action, .. } => action.clone(),
    }
}

/// What is printed as a step begins.
pub fn step_header(step: &Step, number: usize) -> (r: String)
    ensures
        r@ == "  ▸ step "@ + decimal(number as nat) + ": "@ + label_of(step@) + " … "@,
{
    concat5("  ▸ step ", usize_text(number).as_str(), ": ", step_label(step).as_str(), " … ")
}

// ---------------------------------------------------------------------------
// What a step does
// ---------------------------------------------------------------------------

/// What is to be done for a step.
#[derive(Debug)]
pub enum StepPlan {
    /// Nothing: its condition is false.
    Skip,
    /// Run a script.
    Run {
        /// The script.
        script: String,
        /// The shell.
        shell: String,
        /// The directory.
        cwd: String,
    },
    /// Run an action.
    Uses {
        /// The reference.
        action: String,
        /// What is passed to it.
        with: StrMap,
    },
}

/// [`StepPlan`] over views.
#[verifier::ext_equal]
pub enum PlanView {
    /// Nothing.
    Skip,
    /// A script, its shell and its directory.
    Run(Text, Text, Text),
    /// An action and what is passed to it.
    Uses(Text, Seq<(Text, Text)>),
}

impl View for StepPlan {
    type V = PlanView;

    open spec fn view(&self) -> PlanView {
        match *self {
            StepPlan::Skip => PlanView::Skip,
            StepPlan::Run { script, shell, cwd } => PlanView::Run(script@, shell@, cwd@),
            StepPlan::Uses { action, with } => PlanView::Uses(action@, map_entries(with)),
        }
    }
}

/// What is to be done for a step.
pub open spec fn planned(
    step: StepView,
    job: JobView,
    wf: WorkflowView,
    c: ContextView,
    workspace: Text,
) -> Result<PlanView, Fault> {
    match runs(step.if_cond, c) {
        Err(f) => Err(f),
        Ok(false) => Ok(PlanView::Skip),
        Ok(true) => match step.action {
            StepActionView::Run(script) => match interpolated(script, c) {
                Err(f) => Err(f),
                Ok(t) => Ok(
                    PlanView::Run(t, shell_of(step, job, wf), cwd_of(step, job, wf, workspace)),
                ),
            },
            StepActionView::Uses(action, with) => Ok(PlanView::Uses(action, with)),
        },
    }
}

/// Decide what is to be done for a step, given its environment.
pub fn plan_step(
    step: &Step,
    job: &Job,
    wf: &Workflow,
    env: &StrMap,
    st: &JobState,
    s: &Surroundings,
    workspace: &str,
) -> (r: Result<StepPlan, ExprError>)
    ensures
        (match r {
            Ok(p) => Ok(p@),
            Err(e) => Err(e@),
        }) == planned(
            step@,
            job@,
            wf@,
            context_in(map_entries(*env), st@, s@),
            workspace@,
        ),
{
    let c = context_for(env, st, s);
    match step_runs(step, &c) {
        Err(e) => {
            return Err(e);
        },
        Ok(true) => {},
        Ok(false) => {
            return Ok(StepPlan::Skip);
        },
    }
    match &step.action {
        StepAction::Run { script } => match interpolate(script.as_str(), &c) {
            Err(e) => Err(e),
            Ok(t) => Ok(
                StepPlan::Run {
                    script: t,
                    shell: step_shell(step, job, wf),
                    cwd: resolve_cwd(step, job, wf, workspace),
                },
            ),
        },
        StepAction::Uses { action, with } => Ok(
            StepPlan::Uses { action: action.clone(), with: map_copy(with) },
        ),
    }
}

/// What a step handed back through its channels and its output.
#[derive(Debug)]
pub struct StepIo {
    /// Variables for later steps.
    pub env_additions: Vec<(String, String)>,
    /// Additions to `PATH`.
    pub path_additions: Vec<String>,
    /// The step's outputs, those of the channel first.
    pub outputs: Vec<(String, String)>,
}

/// [`StepIo`] over views.
#[verifier::ext_equal]
pub struct StepIoView {
    /// Variables for later steps.
    pub env_additions: Seq<(Text, Text)>,
    /// Additions to `PATH`.
    pub path_additions: Seq<Text>,
    /// The step's outputs.
    pub outputs: Seq<(Text, Text)>,
}

impl View for StepIo {
    type V = StepIoView;

    open spec fn view(&self) -> StepIoView {
        StepIoView {
            env_additions: pairs(self.env_additions@),
            path_additions: texts(self.path_additions@),
            outputs: pairs(self.outputs@),
        }
    }
}

/// What the channels hold, or why they cannot be read.
pub open spec fn handed_back(env: Text, path: Text, output: Text, printed: Seq<(Text, Text)>) -> Result<
    StepIoView,
    EnvFileFault,
> {
    match key_values(lines_of(output)) {
        Err(f) => Err(f),
        Ok(o) => match key_values(lines_of(env)) {
            Err(f) => Err(f),
            Ok(e) => Ok(
                StepIoView {
                    env_additions: e,
                    path_additions: path_lines(lines_of(path)),
                    outputs: o + printed,
                },
            ),
        },
    }
}

/// Read what a step handed back, given the text of its channels and the outputs
/// that it printed.
pub fn read_channels(env: &str, path: &str, output: &str, printed: &Vec<(String, String)>) -> (r:
    Result<StepIo, EnvFileError>)
    ensures
        (match r {
            Ok(io) => Ok(io@),
            Err(e) => Err(e@),
        }) == handed_back(env@, path@, output@, pairs(printed@)),
{
    let mut outputs = match parse_key_values(output) {
        Ok(o) => o,
        Err(e) => {
            return Err(e);
        },
    };
    let env_additions = match parse_key_values(env) {
        Ok(v) => v,
        Err(e) => {
            return Err(e);
        },
    };
    let ghost had = pairs(outputs@);
    let ghost all = pairs(printed@);
    let mut i: usize = 0;
    assert(had + all.take(0) =~= pairs(outputs@));
    while i < printed.len()
        invariant
            i <= printed@.len(),
            all == pairs(printed@),
            pairs(outputs@) == had + all.take(i as int),
        decreases printed@.len() - i,
    {
        let ghost done = pairs(outputs@);
        let p = (printed[i].0.clone(), printed[i].1.clone());
        assert(all[i as int] == (p.0@, p.1@));
        outputs.push(p);
        assert(pairs(outputs@) =~= done.push((p.0@, p.1@)));
        assert(pairs(outputs@) =~= had + all.take(i + 1));
        i += 1;
    }
    assert(all.take(printed@.len() as int) =~= all);
    Ok(StepIo { env_additions, path_additions: parse_path_additions(path), outputs })
}

/// Additions put in front of a path, the newest first.
pub open spec fn path_with(path: Seq<Text>, add: Seq<Text>) -> Seq<Text> {
    add.reverse() + path
}

/// A job's state with what a step handed back.
pub open spec fn with_exports(st: JobStateView, io: StepIoView) -> JobStateView {
    JobStateView {
        env: put_all(st.env, io.env_additions),
        path: path_with(st.path, io.path_additions),
        steps: st.steps,
        matrix: st.matrix,
        status: st.status,
    }
}

/// Apply what a step handed back.
pub fn apply_exports(st: &mut JobState, io: &StepIo)
    ensures
        final(st)@ == with_exports(old(st)@, io@),
{
    put_pairs(&mut st.env, &io.env_additions);
    let ghost had = texts(st.path@);
    let ghost all = texts(io.path_additions@);
    let mut i: usize = 0;
    assert(all.take(0).reverse() + had =~= texts(st.path@));
    while i < io.path_additions.len()
        invariant
            i <= io.path_additions@.len(),
            all == texts(io.path_additions@),
            texts(st.path@) == all.take(i as int).reverse() + had,
            had == old(st)@.path,
            map_entries(st.env) == put_all(old(st)@.env, pairs(io.env_additions@)),
            st.steps == old(st).steps,
            st.matrix == old(st).matrix,
            st.status == old(st).status,
        decreases io.path_additions@.len() - i,
    {
        let ghost done = texts(st.path@);
        let p = io.path_additions[i].clone();
        assert(all[i as int] == p@);
        st.path.insert(0, p);
        assert(texts(st.path@) =~= done.insert(0, p@));
        assert(all.take(i + 1).reverse() =~= seq![p@] + all.take(i as int).reverse());
        assert(texts(st.path@) =~= all.take(i + 1).reverse() + had);
        i += 1;
    }
    assert(all.take(io.path_additions@.len() as int) =~= all);
}

// ---------------------------------------------------------------------------
// How a step ended
// ---------------------------------------------------------------------------

/// What became of a step.
#[derive(Debug, Clone, Copy, PartialEq, Eq, Structural)]
pub enum Verdict {
    /// It did not run.
    Skipped,
    /// It succeeded.
    Passed,
    /// It failed, and the job goes on.
    Forgiven,
    /// It failed.
    Failed,
}

/// How the step itself ended.
pub open spec fn outcome(v: Verdict) -> Text {
    match v {
        Verdict::Skipped => "skipped"@,
        Verdict::Passed => "success"@,
        Verdict::Forgiven => "failure"@,
        Verdict::Failed => "failure"@,
    }
}

/// What counts for the job.
pub open spec fn conclusion(v: Verdict) -> Text {
    match v {
        Verdict::Skipped => "skipped"@,
        Verdict::Passed => "success"@,
        Verdict::Forgiven => "success"@,
        Verdict::Failed => "failure"@,
    }
}

/// What is kept of a step under its id.
pub open spec fn step_value(v: Verdict, outputs: Seq<(Text, Text)>) -> ValueView {
    ValueView::Object(
        seq![
            ("outputs"@, str_value(collected(outputs))),
            ("outcome"@, ValueView::Str(outcome(v))),
            ("conclusion"@, ValueView::Str(conclusion(v))),
        ],
    )
}

/// The `steps` context with a step; one without an id leaves no trace.
pub open spec fn with_step(
    steps: Seq<(Text, ValueView)>,
    id: Option<Text>,
    v: Verdict,
    outputs: Seq<(Text, Text)>,
) -> Seq<(Text, ValueView)> {
    match id {
        Some(i) => put(steps, i, step_value(v, outputs)),
        None => steps,
    }
}

/// Keep what became of a step.
pub fn record_step(
    steps: &mut Members,
    step: &Step,
    v: Verdict,
    outputs: &Vec<(String, String)>,
)
    ensures
        final(steps)@ == with_step(old(steps)@, step@.id, v, pairs(outputs@)),
{
    match &step.id {
        None => {},
        Some(id) => {
            let how = match v {
                Verdict::Skipped => "skipped",
                Verdict::Passed => "success",
                Verdict::Forgiven => "failure",
                Verdict::Failed => "failure",
            };
            let counts = match v {
                Verdict::Skipped => "skipped",
                Verdict::Passed => "success",
                Verdict::Forgiven => "success",
                Verdict::Failed => "failure",
            };
            let mut outs = map_new();
            put_pairs(&mut outs, outputs);
            let mut m: Vec<(String, Value)> = Vec::new();
            m.push(("outputs".to_owned(), str_object(&outs)));
            m.push(("outcome".to_owned(), Value::Str(how.to_owned())));
            m.push(("conclusion".to_owned(), Value::Str(counts.to_owned())));
            proof {
                assert(entries(m@) =~= step_value(v, pairs(outputs@))->Object_0);
                reveal_strlit("outputs");
                reveal_strlit("outcome");
                reveal_strlit("conclusion");
                assert("outputs"@.len() == 7);
                assert("outcome"@.len() == 7);
                assert("conclusion"@.len() == 10);
                assert("outputs"@[3] != "outcome"@[3]);
            }
            let o = Value::Object(sealed(m));
            proof {
                lemma_value_view(o);
            }
            steps.insert(id.clone(), o);
        },
    }
}

/// What becomes of a step that has run.
pub open spec fn judged(step: StepView, ok: bool, c: ContextView) -> Result<Verdict, Fault> {
    if ok {
        Ok(Verdict::Passed)
    } else {
        match goes_on(step, c) {
            Err(f) => Err(f),
            Ok(true) => Ok(Verdict::Forgiven),
            Ok(false) => Ok(Verdict::Failed),
        }
    }
}

/// Judge a step that has run.
pub fn judge(step: &Step, ok: bool, c: &Context) -> (r: Result<Verdict, ExprError>)
    ensures
        (match r {
            Ok(v) => Ok(v),
            Err(e) => Err(e@),
        }) == judged(step@, ok, c@),
{
    if ok {
        return Ok(Verdict::Passed);
    }
    match step_continues_on_error(step, c) {
        Err(e) => Err(e),
        Ok(true) => Ok(Verdict::Forgiven),
        Ok(false) => Ok(Verdict::Failed),
    }
}

/// A status after a step.
pub open spec fn status_after(s: JobStatus, v: Verdict) -> JobStatus {
    if v == Verdict::Failed {
        JobStatus::Failure
    } else {
        s
    }
}

/// A job's state after a step.
pub open spec fn after_step(
    st: JobStateView,
    step: StepView,
    v: Verdict,
    outputs: Seq<(Text, Text)>,
) -> JobStateView {
    JobStateView {
        env: st.env,
        path: st.path,
        steps: with_step(st.steps, step.id, v, outputs),
        matrix: st.matrix,
        status: status_after(st.status, v),
    }
}

/// The exit code in a line.
pub open spec fn exit_text(exit: Option<i32>) -> Text {
    match exit {
        Some(c) => " (exit "@ + int_text(c as int) + ")"@,
        None => Seq::empty(),
    }
}

/// The line that says how a step ended.
pub open spec fn result_line(number: nat, v: Verdict, exit: Option<i32>) -> Text {
    match v {
        Verdict::Skipped => "  ⤼ step "@ + decimal(number) + " skipped by request"@,
        Verdict::Passed => "  ✓ step "@ + decimal(number) + " ok"@,
        Verdict::Forgiven => "  ⚠ step "@ + decimal(number) + " failed"@ + exit_text(exit)
            + " — continue-on-error"@,
        Verdict::Failed => "  ✗ step "@ + decimal(number) + " failed"@ + exit_text(exit),
    }
}

/// The exit code in a line.
pub fn exit_note(exit: Option<i32>) -> (r: String)
    ensures
        r@ == exit_text(exit),
{
    match exit {
        Some(c) => concat3(" (exit ", i64_text(c as i64).as_str(), ")"),
        None => {
            let e = String::new();
            assert(e@ =~= Seq::empty());
            e
        },
    }
}

/// The line that says how a step ended.
pub fn show_result(number: usize, v: Verdict, exit: Option<i32>) -> (r: String)
    ensures
        r@ == result_line(number as nat, v, exit),
{
    let n = usize_text(number);
    match v {
        Verdict::Skipped => concat3("  ⤼ step ", n.as_str(), " skipped by request"),
        Verdict::Passed => concat3("  ✓ step ", n.as_str(), " ok"),
        Verdict::Forgiven => concat5(
            "  ⚠ step ",
            n.as_str(),
            " failed",
            exit_note(exit).as_str(),
            " — continue-on-error",
        ),
        Verdict::Failed => concat4("  ✗ step ", n.as_str(), " failed", exit_note(exit).as_str()),
    }
}

/// A job's state and the line to print after a step that has run, given its
/// environment, or why there is none.
pub open spec fn finished(
    st: JobStateView,
    step: StepView,
    number: nat,
    env: Seq<(Text, Text)>,
    s: SurroundingsView,
    ok: bool,
    exit: Option<i32>,
    outputs: Seq<(Text, Text)>,
) -> Result<(JobStateView, Text), Fault> {
    match judged(step, ok, context_in(env, st, s)) {
        Err(f) => Err(f),
        Ok(v) => Ok((after_step(st, step, v, outputs), result_line(number, v, exit))),
    }
}

/// Bring a job's state up to date after a step that has run, and return the line
/// to print. The exit code is given for a script and not for an action.
pub fn finish_step(
    st: &mut JobState,
    step: &Step,
    number: usize,
    env: &StrMap,
    s: &Surroundings,
    ok: bool,
    exit: Option<i32>,
    outputs: &Vec<(String, String)>,
) -> (r: Result<String, ExprError>)
    ensures
        match r {
            Ok(line) => finished(
                old(st)@,
                step@,
                number as nat,
                map_entries(*env),
                s@,
                ok,
                exit,
                pairs(outputs@),
            ) == Ok::<(JobStateView, Text), Fault>((final(st)@, line@)),
            Err(e) => final(st)@ == old(st)@ && finished(
                old(st)@,
                step@,
                number as nat,
                map_entries(*env),
                s@,
                ok,
                exit,
                pairs(outputs@),
            ) == Err::<(JobStateView, Text), Fault>(e@),
        },
{
    let c = context_for(env, st, s);
    match judge(step, ok, &c) {
        Err(e) => Err(e),
        Ok(v) => {
            record_step(&mut st.steps, step, v, outputs);
            if v == Verdict::Failed {
                st.status = JobStatus::Failure;
            }
            Ok(show_result(number, v, exit))
        },
    }
}

/// Bring a job's state up to date after a step that did not run.
pub fn skip_step(st: &mut JobState, step: &Step)
    ensures
        final(st)@ == after_step(old(st)@, step@, Verdict::Skipped, Seq::empty()),
{
    let none: Vec<(String, String)> = Vec::new();
    assert(pairs(none@) =~= Seq::empty());
    record_step(&mut st.steps, step, Verdict::Skipped, &none);
}

/// A message that names the step it came up in.
pub fn in_step(number: usize, message: &str) -> (r: String)
    ensures
        r@ == "in step "@ + decimal(number as nat) + ": "@ + message@,
{
    concat4("in step ", usize_text(number).as_str(), ": ", message)
}

// ---------------------------------------------------------------------------
// Laws
// ---------------------------------------------------------------------------

/// A condition that does not ask for the status holds only while nothing has
/// failed; one that does holds by its value alone.
pub proof fn law_conditions_need_success(raw: Text, c: ContextView)
    requires
        condition(raw, c) is Ok,
    ensures
        asks_status(unwrapped(trimmed(raw)), c.numerals) == Ok::<bool, Fault>(false) && c.status
            != JobStatus::Success ==> condition(raw, c) == Ok::<bool, Fault>(false),
        asks_status(unwrapped(trimmed(raw)), c.numerals) == Ok::<bool, Fault>(true) ==> condition(
            raw,
            c,
        ) == Ok::<bool, Fault>(truthy(evaluated(unwrapped(trimmed(raw)), c)->Ok_0)),
{
}

/// Once a job has failed it stays failed, and a step fails it only where the step
/// failed and the job does not go on.
pub proof fn law_failure_stays(st: JobStateView, step: StepView, v: Verdict, outputs: Seq<(Text, Text)>)
    ensures
        st.status == JobStatus::Failure ==> after_step(st, step, v, outputs).status
            == JobStatus::Failure,
        after_step(st, step, v, outputs).status == JobStatus::Failure ==> st.status
            == JobStatus::Failure || v == Verdict::Failed,
{
}

/// A step that failed and is forgiven has failed all the same, but does not count.
pub proof fn law_forgiven_steps_do_not_count(step: StepView, c: ContextView)
    requires
        goes_on(step, c) == Ok::<bool, Fault>(true),
    ensures
        judged(step, false, c) == Ok::<Verdict, Fault>(Verdict::Forgiven),
        outcome(Verdict::Forgiven) == "failure"@,
        conclusion(Verdict::Forgiven) == "success"@,
{
}

/// What a step with an id has set can be read under that id, and the other steps
/// are as they were.
pub proof fn law_outputs_can_be_read(
    steps: Seq<(Text, ValueView)>,
    id: Text,
    v: Verdict,
    outputs: Seq<(Text, Text)>,
    other: Text,
)
    ensures
        lookup(with_step(steps, Some(id), v, outputs), id) == Some(step_value(v, outputs)),
        other != id ==> lookup(with_step(steps, Some(id), v, outputs), other) == lookup(
            steps,
            other,
        ),
{
    crate::table::law_put_then_lookup(steps, id, step_value(v, outputs), other);
}

/// What was added to the path last is looked at first.
pub proof fn law_newest_path_comes_first(path: Seq<Text>, add: Seq<Text>)
    requires
        add.len() > 0,
    ensures
        path_with(path, add)[0] == add.last(),
        path_with(path, add).len() == path.len() + add.len(),
{
}

/// A step without a condition runs while nothing has failed; one with a condition
/// runs by its value, and unless it asks for the status only while nothing has
/// failed.
pub proof fn law_when_a_step_runs(if_cond: Option<Text>, c: ContextView)
    ensures
        if_cond is None ==> runs(if_cond, c) == Ok::<bool, Fault>(
            c.status != JobStatus::Failure && c.status != JobStatus::Cancelled,
        ),
        if_cond matches Some(raw) ==> (evaluated(unwrapped(trimmed(raw)), c) matches Ok(v)
            ==> asks_status(unwrapped(trimmed(raw)), c.numerals) == Ok::<bool, Fault>(true)
            ==> runs(if_cond, c) == Ok::<bool, Fault>(truthy(v))),
        if_cond matches Some(raw) ==> (evaluated(unwrapped(trimmed(raw)), c) matches Ok(v)
            ==> asks_status(unwrapped(trimmed(raw)), c.numerals) == Ok::<bool, Fault>(false)
            ==> runs(if_cond, c) == Ok::<bool, Fault>(
            truthy(v) && c.status == JobStatus::Success,
        )),
        if_cond matches Some(raw) ==> (evaluated(unwrapped(trimmed(raw)), c) matches Err(f)
            ==> runs(if_cond, c) == Err::<bool, Fault>(f)),
{
}

/// A condition may stand in `${{ }}`, which is taken off where it is one span; any
/// other text is the expression itself.
pub proof fn law_conditions_may_be_wrapped(e: Text, s: Text)
    ensures
        close_at("${{"@ + e + "}}"@, 3, false) == Some(3 + e.len() as int) ==> unwrapped(
            "${{"@ + e + "}}"@,
        ) == trimmed(e),
        (forall|t: Text| s != #[trigger] ("${{"@ + t)) ==> unwrapped(s) == s,
        (forall|t: Text| s != #[trigger] (t + "}}"@)) ==> unwrapped(s) == s,
{
    reveal_strlit("${{");
    reveal_strlit("}}");
    let w = "${{"@ + e + "}}"@;
    let rest = e + "}}"@;
    assert(w =~= "${{"@ + rest);
    crate::text::law_prefixes_and_suffixes(rest, "${{"@);
    crate::text::law_prefixes_and_suffixes(e, "}}"@);
    if close_at(w, 3, false) == Some(3 + e.len() as int) && ends_in_another_span(w) {
        let j = 3 + e.len() as int;
        let k = choose|k: int|
            j + 2 <= k && #[trigger] opens_at(w, k) && close_at(w, k + 3, false) == Some(
                w.len() - 2,
            );
        assert(k + 3 <= w.len());
    }
    crate::text::law_prefixes_and_suffixes(s, "${{"@);
    if let Some(r) = after_prefix(s, "${{"@) {
        crate::text::law_prefixes_and_suffixes(r, "}}"@);
        if let Some(inner) = before_suffix(r, "}}"@) {
            assert(s =~= "${{"@ + r);
            assert(s =~= ("${{"@ + inner) + "}}"@);
        }
    }
}

/// A failed step is forgiven by `continue-on-error`: as it says where it is a
/// boolean, and by its value where it is an expression.
pub proof fn law_when_a_failure_is_forgiven(step: StepView, ok: bool, c: ContextView)
    ensures
        ok ==> judged(step, ok, c) == Ok::<Verdict, Fault>(Verdict::Passed),
        !ok && step.continue_on_error == ConditionalView::Bool(true) ==> judged(step, ok, c)
            == Ok::<Verdict, Fault>(Verdict::Forgiven),
        !ok && step.continue_on_error == ConditionalView::Bool(false) ==> judged(step, ok, c)
            == Ok::<Verdict, Fault>(Verdict::Failed),
        !ok ==> (step.continue_on_error matches ConditionalView::Expr(e) ==> (evaluated(
            unwrapped(trimmed(e)),
            c,
        ) matches Ok(v) ==> judged(step, ok, c) == Ok::<Verdict, Fault>(
            if truthy(v) {
                Verdict::Forgiven
            } else {
                Verdict::Failed
            },
        ))),
        !ok ==> (step.continue_on_error matches ConditionalView::Expr(e) ==> (evaluated(
            unwrapped(trimmed(e)),
            c,
        ) matches Err(f) ==> judged(step, ok, c) == Err::<Verdict, Fault>(f))),
{
}

/// Laid over an environment, each variable has the text that the last of its
/// values comes to in the context; the others are as they were.
pub proof fn law_overlays_fill_each_value(
    env: Seq<(Text, Text)>,
    add: Seq<(Text, Text)>,
    c: ContextView,
    k: Text,
)
    requires
        forall|i: int| 0 <= i < add.len() ==> interpolated((#[trigger] add[i]).1, c) is Ok,
    ensures
        overlaid(env, add, c) is Ok,
        forall|i: int|
            0 <= i < add.len() && (#[trigger] add[i]).0 == k && (forall|j: int|
                i < j < add.len() ==> (#[trigger] add[j]).0 != k) ==> lookup(
                overlaid(env, add, c)->Ok_0,
                k,
            ) == Some(interpolated(add[i].1, c)->Ok_0),
        (forall|j: int| 0 <= j < add.len() ==> (#[trigger] add[j]).0 != k) ==> lookup(
            overlaid(env, add, c)->Ok_0,
            k,
        ) == lookup(env, k),
    decreases add.len(),
{
    if add.len() > 0 {
        let d = add.drop_last();
        let e = add.last();
        assert forall|i: int| 0 <= i < d.len() implies interpolated(
            (#[trigger] d[i]).1,
            c,
        ) is Ok by {
            assert(interpolated(add[i].1, c) is Ok);
        }
        assert(interpolated(add[add.len() - 1].1, c) is Ok);
        law_overlays_fill_each_value(env, d, c, k);
        let m = overlaid(env, d, c)->Ok_0;
        crate::table::law_put_then_lookup(m, e.0, interpolated(e.1, c)->Ok_0, k);
        assert forall|i: int|
            0 <= i < add.len() && (#[trigger] add[i]).0 == k && (forall|j: int|
                i < j < add.len() ==> (#[trigger] add[j]).0 != k) implies lookup(
            overlaid(env, add, c)->Ok_0,
            k,
        ) == Some(interpolated(add[i].1, c)->Ok_0) by {
            if i < d.len() {
                assert(add[add.len() - 1].0 != k);
                assert(d[i].0 == k);
                assert forall|j: int| i < j < d.len() implies (#[trigger] d[j]).0 != k by {
                    assert(add[j].0 != k);
                }
            }
        }
        if forall|j: int| 0 <= j < add.len() ==> (#[trigger] add[j]).0 != k {
            assert(add[add.len() - 1].0 != k);
            assert forall|j: int| 0 <= j < d.len() implies (#[trigger] d[j]).0 != k by {
                assert(add[j].0 != k);
            }
        }
    }
}

/// The first value that cannot be filled is the error of an overlay.
pub proof fn law_first_bad_value_of_an_overlay(
    env: Seq<(Text, Text)>,
    add: Seq<(Text, Text)>,
    c: ContextView,
    k: int,
    f: Fault,
)
    requires
        0 <= k < add.len(),
        interpolated(add[k].1, c) == Err::<Text, Fault>(f),
        forall|i: int| 0 <= i < k ==> interpolated((#[trigger] add[i]).1, c) is Ok,
    ensures
        overlaid(env, add, c) == Err::<Seq<(Text, Text)>, Fault>(f),
    decreases add.len(),
{
    let d = add.drop_last();
    if k < d.len() {
        law_first_bad_value_of_an_overlay(env, d, c, k, f);
    } else {
        assert forall|i: int| 0 <= i < d.len() implies interpolated(
            (#[trigger] d[i]).1,
            c,
        ) is Ok by {
            assert(interpolated(add[i].1, c) is Ok);
        }
        law_overlays_fill_each_value(env, d, c, Seq::empty());
    }
}

/// The variables of a workflow and of a job are filled one after the other, each
/// with those before it in `env`.
pub proof fn law_layers_see_what_came_before(
    env: Seq<(Text, Text)>,
    add: Seq<(Text, Text)>,
    e: (Text, Text),
    s: SurroundingsView,
    matrix: Seq<(Text, ValueView)>,
    other: Text,
)
    requires
        layered(env, add, s, matrix) is Ok,
    ensures
        layered(env, Seq::empty(), s, matrix) == Ok::<Seq<(Text, Text)>, Fault>(env),
        interpolated(
            e.1,
            step_context(
                layered(env, add, s, matrix)->Ok_0,
                s,
                Seq::empty(),
                matrix,
                JobStatus::Success,
            ),
        ) matches Ok(t) ==> (layered(env, add.push(e), s, matrix) matches Ok(m) && lookup(m, e.0)
            == Some(t) && (other != e.0 ==> lookup(m, other) == lookup(
            layered(env, add, s, matrix)->Ok_0,
            other,
        ))),
        interpolated(
            e.1,
            step_context(
                layered(env, add, s, matrix)->Ok_0,
                s,
                Seq::empty(),
                matrix,
                JobStatus::Success,
            ),
        ) matches Err(f) ==> layered(env, add.push(e), s, matrix) == Err::<
            Seq<(Text, Text)>,
            Fault,
        >(f),
{
    assert(add.push(e).drop_last() =~= add);
    let m = layered(env, add, s, matrix)->Ok_0;
    let c = step_context(m, s, Seq::empty(), matrix, JobStatus::Success);
    if let Ok(t) = interpolated(e.1, c) {
        crate::table::law_put_then_lookup(m, e.0, t, other);
    }
}

/// A job starts with the workflow's variables and over them its own, with nothing
/// on the path, no step done, its combination, and nothing failed.
pub proof fn law_how_a_job_starts(
    wf_env: Seq<(Text, Text)>,
    job_env: Seq<(Text, Text)>,
    matrix: Seq<(Text, Text)>,
    s: SurroundingsView,
)
    ensures
        started(wf_env, job_env, matrix, s) matches Ok(st) ==> {
            &&& layered(Seq::empty(), wf_env, s, str_entries(matrix)) matches Ok(a) && layered(
                a,
                job_env,
                s,
                str_entries(matrix),
            ) == Ok::<Seq<(Text, Text)>, Fault>(st.env)
            &&& st.path.len() == 0
            &&& st.steps.len() == 0
            &&& st.matrix == str_entries(matrix)
            &&& st.status == JobStatus::Success
        },
        layered(Seq::empty(), wf_env, s, str_entries(matrix)) matches Err(f) ==> started(
            wf_env,
            job_env,
            matrix,
            s,
        ) == Err::<JobStateView, Fault>(f),
{
}

/// A step reads the job as it stands, with its own environment.
pub proof fn law_steps_read_the_job_so_far(
    env: Seq<(Text, Text)>,
    st: JobStateView,
    s: SurroundingsView,
)
    ensures
        context_in(env, st, s) == step_context(env, s, st.steps, st.matrix, st.status),
{
}

/// A step whose condition is false is skipped; any other runs its script, filled,
/// in its shell and directory, or uses its action with the inputs as written.
pub proof fn law_what_a_step_does(
    step: StepView,
    job: JobView,
    wf: WorkflowView,
    c: ContextView,
    workspace: Text,
)
    ensures
        runs(step.if_cond, c) matches Err(f) ==> planned(step, job, wf, c, workspace) == Err::<
            PlanView,
            Fault,
        >(f),
        runs(step.if_cond, c) == Ok::<bool, Fault>(false) <==> planned(step, job, wf, c, workspace)
            == Ok::<PlanView, Fault>(PlanView::Skip),
        runs(step.if_cond, c) == Ok::<bool, Fault>(true) ==> (step.action matches StepActionView::Run(
            script,
        ) ==> (interpolated(script, c) matches Ok(t) ==> planned(step, job, wf, c, workspace)
            == Ok::<PlanView, Fault>(
            PlanView::Run(t, shell_of(step, job, wf), cwd_of(step, job, wf, workspace)),
        ))),
        runs(step.if_cond, c) == Ok::<bool, Fault>(true) ==> (step.action matches StepActionView::Run(
            script,
        ) ==> (interpolated(script, c) matches Err(f) ==> planned(step, job, wf, c, workspace)
            == Err::<PlanView, Fault>(f))),
        runs(step.if_cond, c) == Ok::<bool, Fault>(true) ==> (
        step.action matches StepActionView::Uses(action, with) ==> planned(
            step,
            job,
            wf,
            c,
            workspace,
        ) == Ok::<PlanView, Fault>(PlanView::Uses(action, with))),
{
}

/// What a step exports is seen by the steps behind it: a variable has the last
/// value given, and the path begins with what was added last.
pub proof fn law_exports_reach_later_steps(st: JobStateView, io: StepIoView, k: Text)
    ensures
        forall|i: int|
            0 <= i < io.env_additions.len() && (#[trigger] io.env_additions[i]).0 == k && (forall|
                j: int,
            |
                i < j < io.env_additions.len() ==> (#[trigger] io.env_additions[j]).0 != k)
                ==> lookup(with_exports(st, io).env, k) == Some(io.env_additions[i].1),
        (forall|j: int|
            0 <= j < io.env_additions.len() ==> (#[trigger] io.env_additions[j]).0 != k) ==> lookup(
            with_exports(st, io).env,
            k,
        ) == lookup(st.env, k),
        with_exports(st, io).path.len() == st.path.len() + io.path_additions.len(),
        forall|i: int|
            0 <= i < io.path_additions.len() ==> #[trigger] with_exports(st, io).path[i]
                == io.path_additions[io.path_additions.len() - 1 - i],
        forall|i: int|
            0 <= i < st.path.len() ==> st.path[i] == #[trigger] with_exports(st, io).path[i
                + io.path_additions.len()],
        with_exports(st, io).steps == st.steps,
        with_exports(st, io).matrix == st.matrix,
        with_exports(st, io).status == st.status,
{
    crate::table::law_last_pair_counts(st.env, io.env_additions, k);
}

/// What a step hands back is read from its files: variables, path entries and
/// outputs, with those that it printed behind them.
pub proof fn law_what_a_step_hands_back(
    env: Text,
    path: Text,
    output: Text,
    printed: Seq<(Text, Text)>,
)
    ensures
        handed_back(env, path, output, printed) matches Ok(io) ==> {
            &&& key_values(lines_of(env)) == Ok::<Seq<(Text, Text)>, EnvFileFault>(
                io.env_additions,
            )
            &&& io.path_additions == path_lines(lines_of(path))
            &&& key_values(lines_of(output)) matches Ok(o) && io.outputs == o + printed
        },
        handed_back(env, path, output, printed) is Ok <==> key_values(lines_of(env)) is Ok
            && key_values(lines_of(output)) is Ok,
{
}

/// After a step the job has failed where the step did, its id holds what came of
/// it, and nothing else has changed.
pub proof fn law_what_a_step_leaves(
    st: JobStateView,
    step: StepView,
    v: Verdict,
    outputs: Seq<(Text, Text)>,
    other: Text,
)
    ensures
        ({
            let n = after_step(st, step, v, outputs);
            &&& n.env == st.env
            &&& n.path == st.path
            &&& n.matrix == st.matrix
            &&& v == Verdict::Failed ==> n.status == JobStatus::Failure
            &&& v != Verdict::Failed ==> n.status == st.status
            &&& step.id is None ==> n.steps == st.steps
            &&& step.id != Some(other) ==> lookup(n.steps, other) == lookup(st.steps, other)
            &&& step.id matches Some(id) ==> (lookup(n.steps, id) matches Some(
                ValueView::Object(o),
            ) && {
                &&& lookup(o, "outputs"@) == Some(str_value(collected(outputs)))
                &&& lookup(o, "outcome"@) == Some(
                    ValueView::Str(
                        if v == Verdict::Passed {
                            "success"@
                        } else if v == Verdict::Skipped {
                            "skipped"@
                        } else {
                            "failure"@
                        },
                    ),
                )
                &&& lookup(o, "conclusion"@) == Some(
                    ValueView::Str(
                        if v == Verdict::Passed || v == Verdict::Forgiven {
                            "success"@
                        } else if v == Verdict::Skipped {
                            "skipped"@
                        } else {
                            "failure"@
                        },
                    ),
                )
            })
        }),
{
    if let Some(id) = step.id {
        let val = step_value(v, outputs);
        crate::table::law_put_then_lookup(st.steps, id, val, other);
        let o = val->Object_0;
        reveal_strlit("outputs");
        reveal_strlit("outcome");
        reveal_strlit("conclusion");
        assert("outputs"@[3] == 'p' && "outcome"@[3] == 'c' && "conclusion"@.len() == 10
            && "outputs"@.len() == 7 && "outcome"@.len() == 7);
        crate::table::law_lookup_finds_the_first(o, "outputs"@, 0);
        crate::table::law_lookup_finds_the_first(o, "outcome"@, 1);
        crate::table::law_lookup_finds_the_first(o, "conclusion"@, 2);
    }
}

/// A step ends with its verdict, which goes into the job and the line that tells
/// it.
pub proof fn law_how_a_step_ends(
    st: JobStateView,
    step: StepView,
    number: nat,
    env: Seq<(Text, Text)>,
    s: SurroundingsView,
    ok: bool,
    exit: Option<i32>,
    outputs: Seq<(Text, Text)>,
)
    ensures
        judged(step, ok, context_in(env, st, s)) matches Ok(v) ==> finished(
            st,
            step,
            number,
            env,
            s,
            ok,
            exit,
            outputs,
        ) == Ok::<(JobStateView, Text), Fault>(
            (after_step(st, step, v, outputs), result_line(number, v, exit)),
        ),
        judged(step, ok, context_in(env, st, s)) matches Err(f) ==> finished(
            st,
            step,
            number,
            env,
            s,
            ok,
            exit,
            outputs,
        ) == Err::<(JobStateView, Text), Fault>(f),
        result_line(number, Verdict::Passed, exit) == "  ✓ step "@ + decimal(number) + " ok"@,
        result_line(number, Verdict::Skipped, exit) == "  ⤼ step "@ + decimal(number)
            + " skipped by request"@,
        exit matches Some(x) ==> result_line(number, Verdict::Failed, exit) == "  ✗ step "@
            + decimal(number) + " failed"@ + (" (exit "@ + int_text(x as int) + ")"@),
        exit matches Some(x) ==> result_line(number, Verdict::Forgiven, exit) == "  ⚠ step "@
            + decimal(number) + " failed"@ + (" (exit "@ + int_text(x as int) + ")"@)
            + " — continue-on-error"@,
        exit is None ==> result_line(number, Verdict::Failed, exit) == "  ✗ step "@ + decimal(
            number,
        ) + " failed"@,
{
    let t = "  ✗ step "@ + decimal(number) + " failed"@;
    assert(t + Seq::<char>::empty() =~= t);
}

/// A step is called by its name, or else by the first line of its script that is
/// not blank, or else by its action.
pub proof fn law_what_a_step_is_called(step: StepView, i: int)
    ensures
        step.name matches Some(n) ==> label_of(step) == n,
        step.name is None ==> (step.action matches StepActionView::Uses(action, _) ==> label_of(
            step,
        ) == action),
        step.name is None ==> (step.action matches StepActionView::Run(script) ==> 0 <= i
            < lines_of(script).len() && trimmed(lines_of(script)[i]).len() > 0 && (forall|j: int|
            0 <= j < i ==> trimmed(#[trigger] lines_of(script)[j]).len() == 0) ==> label_of(step)
            == trimmed(lines_of(script)[i])),
        step.name is None ==> (step.action matches StepActionView::Run(script) ==> (forall|j: int|
            0 <= j < lines_of(script).len() ==> trimmed(#[trigger] lines_of(script)[j]).len() == 0)
            ==> label_of(step).len() == 0),
{
    if let StepActionView::Run(script) = step.action {
        let ls = lines_of(script);
        if 0 <= i < ls.len() && trimmed(ls[i]).len() > 0 && (forall|j: int|
            0 <= j < i ==> trimmed(#[trigger] ls[j]).len() == 0) {
            lemma_first_line(ls, i);
        }
        if forall|j: int| 0 <= j < ls.len() ==> trimmed(#[trigger] ls[j]).len() == 0 {
            lemma_no_line(ls);
        }
    }
}

proof fn lemma_first_line(ls: Seq<Text>, i: int)
    requires
        0 <= i < ls.len(),
        trimmed(ls[i]).len() > 0,
        forall|j: int| 0 <= j < i ==> trimmed(#[trigger] ls[j]).len() == 0,
    ensures
        first_line(ls) == trimmed(ls[i]),
    decreases i,
{
    if i > 0 {
        assert(trimmed(ls[0]).len() == 0);
        let t = ls.skip(1);
        assert forall|j: int| 0 <= j < i - 1 implies trimmed(#[trigger] t[j]).len() == 0 by {
            assert(trimmed(ls[j + 1]).len() == 0);
        }
        lemma_first_line(t, i - 1);
    }
}

proof fn lemma_no_line(ls: Seq<Text>)
    requires
        forall|j: int| 0 <= j < ls.len() ==> trimmed(#[trigger] ls[j]).len() == 0,
    ensures
        first_line(ls).len() == 0,
    decreases ls.len(),
{
    if ls.len() > 0 {
        assert(trimmed(ls[0]).len() == 0);
        let t = ls.skip(1);
        assert forall|j: int| 0 <= j < t.len() implies trimmed(#[trigger] t[j]).len() == 0 by {
            assert(trimmed(ls[j + 1]).len() == 0);
        }
        lemma_no_line(t);
    }
}

/// A text that begins with one span and ends with another is left as it is.
pub proof fn law_several_spans_stay_wrapped(a: Text, m: Text, b: Text)
    requires
        ({
            let s = "${{"@ + a + "}}"@ + m + "${{"@ + b + "}}"@;
            &&& close_at(s, 3, false) == Some(3 + a.len() as int)
            &&& close_at(s, 8 + a.len() + m.len() as int, false) == Some(
                8 + a.len() + m.len() + b.len() as int,
            )
        }),
    ensures
        ({
            let s = "${{"@ + a + "}}"@ + m + "${{"@ + b + "}}"@;
            unwrapped(s) == s
        }),
{
    reveal_strlit("${{");
    reveal_strlit("}}");
    let s = "${{"@ + a + "}}"@ + m + "${{"@ + b + "}}"@;
    let k = 5 + a.len() + m.len() as int;
    assert(s.subrange(k, k + 3) =~= "${{"@);
    assert(opens_at(s, k));
    assert(ends_in_another_span(s));
}

} // verus!
