//! The steps of a job, one after another: which comes next, what is done for it,
//! and what the job has come to.

use crate::exec::context::{Surroundings, SurroundingsView};
use crate::exec::shell::{shell_of, step_shell};
use crate::exec::show::{pauses, should_pause_at};
use crate::exec::step::{
    after_step, apply_exports, context_for, context_in, finish_step, finished, judge, judged,
    label_of, overlaid, plan_step, planned, record_step, result_line, show_result, skip_step, start_job,
    started, status_after, step_env, step_header, with_exports, JobState, JobStateView, PlanView,
    StepIo, StepIoView, StepPlan, Verdict,
};
use crate::exec::RunOptions;
use crate::expr::error::{ExprError, Fault};
use crate::expr::eval::JobStatus;
use crate::model::{Job, JobView, Step, StepView, Workflow, WorkflowView};
use crate::numtext::decimal;
use crate::strmap::{map_entries, StrMap};
use crate::text::{concat2, opt_text, pairs, texts, Text};
use vstd::prelude::*;

verus! {

/// A job that is running.
#[derive(Debug)]
pub struct JobRun {
    /// What its steps have come to.
    pub state: JobState,
    /// How many steps have ended.
    pub next: usize,
    /// The environment of the step at hand.
    pub env: Option<StrMap>,
    /// The run was left.
    pub quit: bool,
}

/// [`JobRun`] over views.
#[verifier::ext_equal]
pub struct JobRunView {
    /// What its steps have come to.
    pub state: JobStateView,
    /// How many steps have ended.
    pub next: nat,
    /// The environment of the step at hand.
    pub env: Option<Seq<(Text, Text)>>,
    /// The run was left.
    pub quit: bool,
}

/// An environment over views.
pub open spec fn opt_env(o: Option<StrMap>) -> Option<Seq<(Text, Text)>> {
    match o {
        Some(m) => Some(map_entries(m)),
        None => None,
    }
}

impl View for JobRun {
    type V = JobRunView;

    open spec fn view(&self) -> JobRunView {
        JobRunView {
            state: self.state@,
            next: self.next as nat,
            env: opt_env(self.env),
            quit: self.quit,
        }
    }
}

/// A job that is running is one with these steps: where a step is at hand, it is
/// one of them, and the run was not left.
pub open spec fn is_job_run(r: JobRunView, job: JobView) -> bool {
    &&& r.next <= job.steps.len()
    &&& r.env is Some ==> r.next < job.steps.len() && !r.quit
}

/// A job before its first step, or why it cannot start.
pub open spec fn job_begun(
    wf: WorkflowView,
    job: JobView,
    matrix: Seq<(Text, Text)>,
    s: SurroundingsView,
) -> Result<JobRunView, Fault> {
    match started(wf.env, job.env, matrix, s) {
        Err(f) => Err(f),
        Ok(state) => Ok(JobRunView { state, next: 0, env: None, quit: false }),
    }
}

/// Begin a job with a combination of its matrix.
pub fn run_job(wf: &Workflow, job: &Job, matrix: &StrMap, s: &Surroundings) -> (r: Result<
    JobRun,
    ExprError,
>)
    ensures
        (match r {
            Ok(x) => Ok(x@),
            Err(e) => Err(e@),
        }) == job_begun(wf@, job@, map_entries(*matrix), s@),
        r matches Ok(x) ==> is_job_run(x@, job@) && x@.env is None,
{
    match start_job(&wf.env, &job.env, matrix, s) {
        Err(e) => Err(e),
        Ok(state) => Ok(JobRun { state, next: 0, env: None, quit: false }),
    }
}

/// A job that has come to its next step, and what is printed as that begins;
/// nothing where no step is left.
pub open spec fn entered(r: JobRunView, job: JobView, s: SurroundingsView) -> Result<
    (JobRunView, Option<Text>),
    Fault,
> {
    if r.quit || r.next >= job.steps.len() {
        Ok((r, None))
    } else {
        let step = job.steps[r.next as int];
        match overlaid(r.state.env, step.env, context_in(r.state.env, r.state, s)) {
            Err(f) => Err(f),
            Ok(env) => Ok(
                (
                    JobRunView { state: r.state, next: r.next, env: Some(env), quit: false },
                    Some(
                        "  ▸ step "@ + decimal(r.next + 1) + ": "@ + label_of(step) + " … "@,
                    ),
                ),
            ),
        }
    }
}

/// What is to be done for a step.
#[derive(Debug)]
pub enum StepMove {
    /// Nothing: print this and go on.
    Skipped(String),
    /// Run a script, after a pause where that was asked for.
    Script {
        /// The script.
        script: String,
        /// The shell.
        shell: String,
        /// The directory.
        cwd: String,
        /// Pause before it.
        pause: bool,
    },
    /// Run an action, after a pause where that was asked for.
    Uses {
        /// The reference.
        action: String,
        /// What is passed to it.
        with: StrMap,
        /// Pause before it.
        pause: bool,
    },
}

/// [`StepMove`] over views.
#[verifier::ext_equal]
pub enum MoveView {
    /// Nothing.
    Skipped(Text),
    /// A script, its shell, its directory and whether there is a pause.
    Script(Text, Text, Text, bool),
    /// An action, what is passed to it and whether there is a pause.
    Uses(Text, Seq<(Text, Text)>, bool),
}

impl View for StepMove {
    type V = MoveView;

    open spec fn view(&self) -> MoveView {
        match *self {
            StepMove::Skipped(t) => MoveView::Skipped(t@),
            StepMove::Script { script, shell, cwd, pause } => MoveView::Script(
                script@,
                shell@,
                cwd@,
                pause,
            ),
            StepMove::Uses { action, with, pause } => MoveView::Uses(
                action@,
                map_entries(with),
                pause,
            ),
        }
    }
}

/// What a pause before a step shows and opens a shell in.
#[derive(Debug)]
pub struct Pause {
    /// The script, or the action that is used.
    pub script: String,
    /// The shell.
    pub shell: String,
    /// The directory.
    pub cwd: String,
}

/// What a pause before a step shows: its script, shell and directory; of an
/// action, its reference, the step's shell and the workspace. None where there is
/// no pause.
pub open spec fn pause_before(
    m: MoveView,
    step: StepView,
    job: JobView,
    wf: WorkflowView,
    workspace: Text,
) -> Option<(Text, Text, Text)> {
    match m {
        MoveView::Script(script, shell, cwd, true) => Some((script, shell, cwd)),
        MoveView::Uses(action, _, true) => Some(
            ("uses: "@ + action, shell_of(step, job, wf), workspace),
        ),
        _ => None,
    }
}

impl StepMove {
    /// What a pause before the step shows, if there is one.
    pub fn pause(&self, step: &Step, job: &Job, wf: &Workflow, workspace: &str) -> (r: Option<
        Pause,
    >)
        ensures
            (match r {
                Some(p) => Some((p.script@, p.shell@, p.cwd@)),
                None => None,
            }) == pause_before(self@, step@, job@, wf@, workspace@),
    {
        match self {
            StepMove::Script { script, shell, cwd, pause } => {
                if *pause {
                    Some(Pause { script: script.clone(), shell: shell.clone(), cwd: cwd.clone() })
                } else {
                    None
                }
            },
            StepMove::Uses { action, pause, .. } => {
                if *pause {
                    Some(
                        Pause {
                            script: concat2("uses: ", action.as_str()),
                            shell: step_shell(step, job, wf),
                            cwd: workspace.to_owned(),
                        },
                    )
                } else {
                    None
                }
            },
            StepMove::Skipped(_) => None,
        }
    }
}

/// A job whose step at hand has ended.
pub open spec fn passed(
    r: JobRunView,
    step: StepView,
    v: Verdict,
    outputs: Seq<(Text, Text)>,
) -> JobRunView {
    JobRunView {
        state: after_step(r.state, step, v, outputs),
        next: r.next + 1,
        env: None,
        quit: r.quit,
    }
}

/// What is to be done for the step at hand, and what the job becomes.
pub open spec fn moved(
    r: JobRunView,
    job: JobView,
    wf: WorkflowView,
    s: SurroundingsView,
    workspace: Text,
    pause: bool,
) -> Result<(JobRunView, MoveView), Fault> {
    let step = job.steps[r.next as int];
    match planned(step, job, wf, context_in(r.env->Some_0, r.state, s), workspace) {
        Err(f) => Err(f),
        Ok(PlanView::Skip) => Ok(
            (
                passed(r, step, Verdict::Skipped, Seq::empty()),
                MoveView::Skipped("skipped (if condition false)"@),
            ),
        ),
        Ok(PlanView::Run(script, shell, cwd)) => Ok(
            (r, MoveView::Script(script, shell, cwd, pause)),
        ),
        Ok(PlanView::Uses(action, with)) => Ok((r, MoveView::Uses(action, with, pause))),
    }
}

/// A job whose step at hand has run, and the line to print.
pub open spec fn step_ended(
    r: JobRunView,
    job: JobView,
    s: SurroundingsView,
    ok: bool,
    exit: Option<i32>,
    outputs: Seq<(Text, Text)>,
) -> Result<(JobRunView, Text), Fault> {
    match finished(
        r.state,
        job.steps[r.next as int],
        r.next + 1,
        r.env->Some_0,
        s,
        ok,
        exit,
        outputs,
    ) {
        Err(f) => Err(f),
        Ok(p) => Ok(
            (JobRunView { state: p.0, next: r.next + 1, env: None, quit: r.quit }, p.1),
        ),
    }
}

/// A job with what its step at hand handed back.
pub open spec fn exported(r: JobRunView, io: StepIoView) -> JobRunView {
    JobRunView { state: with_exports(r.state, io), next: r.next, env: r.env, quit: r.quit }
}

impl JobRun {
    /// Come to the next step, and return what is printed as it begins; nothing
    /// where no step is left. Where a number has to be converted first, all stays
    /// as it is, here as in what follows.
    pub fn enter(&mut self, job: &Job, s: &Surroundings) -> (r: Result<Option<String>, ExprError>)
        requires
            is_job_run(old(self)@, job@),
            old(self)@.env is None,
        ensures
            is_job_run(final(self)@, job@),
            match r {
                Ok(h) => entered(old(self)@, job@, s@) == Ok::<(JobRunView, Option<Text>), Fault>(
                    (final(self)@, opt_text(h)),
                ) && (h is Some <==> final(self)@.env is Some),
                Err(e) => final(self)@ == old(self)@ && entered(old(self)@, job@, s@) == Err::<
                    (JobRunView, Option<Text>),
                    Fault,
                >(e@),
            },
    {
        let n = job.steps.len();
        if self.quit || self.next >= n {
            return Ok(None);
        }
        let step = &job.steps[self.next];
        assert(job@.steps[self.next as int] == step@);
        match step_env(step, &self.state, s) {
            Err(e) => Err(e),
            Ok(env) => {
                self.env = Some(env);
                Ok(Some(step_header(step, self.next + 1)))
            },
        }
    }

    /// Decide what is to be done for the step at hand; one whose condition is
    /// false is passed over.
    pub fn plan(
        &mut self,
        job: &Job,
        wf: &Workflow,
        s: &Surroundings,
        opts: &RunOptions,
        interactive: bool,
    ) -> (r: Result<StepMove, ExprError>)
        requires
            is_job_run(old(self)@, job@),
            old(self)@.env is Some,
        ensures
            is_job_run(final(self)@, job@),
            match r {
                Ok(m) => moved(
                    old(self)@,
                    job@,
                    wf@,
                    s@,
                    opts.workspace@,
                    interactive && pauses(
                        job@.steps[old(self)@.next as int],
                        opts.step_all,
                        texts(opts.breakpoints@),
                    ),
                ) == Ok::<(JobRunView, MoveView), Fault>((final(self)@, m@)) && (m is Skipped
                    <==> final(self)@.env is None),
                Err(e) => final(self)@ == old(self)@ && moved(
                    old(self)@,
                    job@,
                    wf@,
                    s@,
                    opts.workspace@,
                    interactive && pauses(
                        job@.steps[old(self)@.next as int],
                        opts.step_all,
                        texts(opts.breakpoints@),
                    ),
                ) == Err::<(JobRunView, MoveView), Fault>(e@),
            },
    {
        let step = &job.steps[self.next];
        assert(job@.steps[self.next as int] == step@);
        let plan = match &self.env {
            Some(env) => plan_step(step, job, wf, env, &self.state, s, opts.workspace.as_str()),
            None => {
                assert(false);
                return Ok(StepMove::Skipped(String::new()));
            },
        };
        let pause = interactive && should_pause_at(step, opts);
        match plan {
            Err(e) => Err(e),
            Ok(StepPlan::Skip) => {
                self.pass_over(job);
                Ok(StepMove::Skipped("skipped (if condition false)".to_owned()))
            },
            Ok(StepPlan::Run { script, shell, cwd }) => Ok(
                StepMove::Script { script, shell, cwd, pause },
            ),
            Ok(StepPlan::Uses { action, with }) => Ok(StepMove::Uses { action, with, pause }),
        }
    }

    /// Pass over the step at hand.
    fn pass_over(&mut self, job: &Job)
        requires
            is_job_run(old(self)@, job@),
            old(self)@.env is Some,
        ensures
            is_job_run(final(self)@, job@),
            final(self)@ == passed(
                old(self)@,
                job@.steps[old(self)@.next as int],
                Verdict::Skipped,
                Seq::empty(),
            ),
    {
        let n = job.steps.len();
        assert(self.next < n);
        let step = &job.steps[self.next];
        assert(job@.steps[self.next as int] == step@);
        skip_step(&mut self.state, step);
        self.next = self.next + 1;
        self.env = None;
    }

    /// Skip the step at hand, because that was asked for, and return the line to
    /// print.
    pub fn skip(&mut self, job: &Job) -> (r: String)
        requires
            is_job_run(old(self)@, job@),
            old(self)@.env is Some,
        ensures
            is_job_run(final(self)@, job@),
            final(self)@ == passed(
                old(self)@,
                job@.steps[old(self)@.next as int],
                Verdict::Skipped,
                Seq::empty(),
            ),
            r@ == result_line(old(self)@.next + 1, Verdict::Skipped, None),
    {
        let n = job.steps.len();
        assert(self.next < n);
        let line = show_result(self.next + 1, Verdict::Skipped, None);
        self.pass_over(job);
        line
    }

    /// Leave the run before the step at hand.
    pub fn leave(&mut self, job: &Job)
        requires
            is_job_run(old(self)@, job@),
        ensures
            is_job_run(final(self)@, job@),
            final(self)@ == (JobRunView {
                state: old(self)@.state,
                next: old(self)@.next,
                env: None,
                quit: true,
            }),
    {
        self.env = None;
        self.quit = true;
    }

    /// Take in what the step at hand handed back, while it has not ended: a step
    /// of the action that it runs, or the action itself.
    pub fn export(&mut self, job: &Job, io: &StepIo)
        requires
            is_job_run(old(self)@, job@),
        ensures
            is_job_run(final(self)@, job@),
            final(self)@ == exported(old(self)@, io@),
    {
        apply_exports(&mut self.state, io);
    }

    /// Take in how the script of the step at hand ended and what it handed back,
    /// and return the line to print.
    pub fn script_ended(&mut self, job: &Job, s: &Surroundings, io: &StepIo, ok: bool, code: i32) -> (r:
        Result<String, ExprError>)
        requires
            is_job_run(old(self)@, job@),
            old(self)@.env is Some,
        ensures
            is_job_run(final(self)@, job@),
            match r {
                Ok(line) => step_ended(
                    exported(old(self)@, io@),
                    job@,
                    s@,
                    ok,
                    Some(code),
                    io@.outputs,
                ) == Ok::<(JobRunView, Text), Fault>((final(self)@, line@)) && final(self)@.env
                    is None,
                Err(e) => final(self)@ == old(self)@ && step_ended(
                    exported(old(self)@, io@),
                    job@,
                    s@,
                    ok,
                    Some(code),
                    io@.outputs,
                ) == Err::<(JobRunView, Text), Fault>(e@),
            },
    {
        let n = job.steps.len();
        assert(self.next < n);
        let step = &job.steps[self.next];
        assert(job@.steps[self.next as int] == step@);
        let c = match &self.env {
            Some(env) => context_for(env, &self.state, s),
            None => {
                assert(false);
                return Ok(String::new());
            },
        };
        match judge(step, ok, &c) {
            Err(e) => Err(e),
            Ok(v) => {
                apply_exports(&mut self.state, io);
                record_step(&mut self.state.steps, step, v, &io.outputs);
                if v == Verdict::Failed {
                    self.state.status = JobStatus::Failure;
                }
                let number = self.next + 1;
                self.next = number;
                self.env = None;
                Ok(show_result(number, v, Some(code)))
            },
        }
    }

    /// Take in how the action of the step at hand ended, and return the line to
    /// print.
    pub fn action_ended(
        &mut self,
        job: &Job,
        s: &Surroundings,
        ok: bool,
        outputs: &Vec<(String, String)>,
    ) -> (r: Result<String, ExprError>)
        requires
            is_job_run(old(self)@, job@),
            old(self)@.env is Some,
        ensures
            is_job_run(final(self)@, job@),
            match r {
                Ok(line) => step_ended(old(self)@, job@, s@, ok, None, pairs(outputs@)) == Ok::<
                    (JobRunView, Text),
                    Fault,
                >((final(self)@, line@)) && final(self)@.env is None,
                Err(e) => final(self)@ == old(self)@ && step_ended(
                    old(self)@,
                    job@,
                    s@,
                    ok,
                    None,
                    pairs(outputs@),
                ) == Err::<(JobRunView, Text), Fault>(e@),
            },
    {
        let n = job.steps.len();
        assert(self.next < n);
        let number = self.next + 1;
        let step = &job.steps[self.next];
        assert(job@.steps[self.next as int] == step@);
        let line = match &self.env {
            Some(env) => finish_step(&mut self.state, step, number, env, s, ok, None, outputs),
            None => {
                assert(false);
                return Ok(String::new());
            },
        };
        match line {
            Err(e) => Err(e),
            Ok(t) => {
                self.next = number;
                self.env = None;
                Ok(t)
            },
        }
    }
}

// ---------------------------------------------------------------------------
// Laws
// ---------------------------------------------------------------------------

/// A step ends once, and the steps end in order: whatever ends the step at hand,
/// the job goes on to the one after it.
pub proof fn law_steps_end_in_order(
    r: JobRunView,
    job: JobView,
    wf: WorkflowView,
    s: SurroundingsView,
    workspace: Text,
    pause: bool,
    io: StepIoView,
    ok: bool,
    exit: Option<i32>,
)
    requires
        is_job_run(r, job),
        r.env is Some,
    ensures
        moved(r, job, wf, s, workspace, pause) matches Ok(p) ==> if p.1 is Skipped {
            p.0.next == r.next + 1 && p.0.env is None
        } else {
            p.0 == r
        },
        step_ended(exported(r, io), job, s, ok, exit, io.outputs) matches Ok(p) ==> p.0.next
            == r.next + 1 && p.0.env is None,
{
}

/// No step begins once the run was left, or once all have ended; until then, the
/// next one does, unless its environment cannot be had.
pub proof fn law_steps_begin_until_the_end(r: JobRunView, job: JobView, s: SurroundingsView)
    requires
        is_job_run(r, job),
        r.env is None,
    ensures
        r.quit || r.next == job.steps.len() ==> entered(r, job, s) == Ok::<
            (JobRunView, Option<Text>),
            Fault,
        >((r, None)),
        !r.quit && r.next < job.steps.len() ==> match entered(r, job, s) {
            Ok(p) => p.1 is Some && p.0.env is Some && p.0.next == r.next && p.0.state == r.state,
            Err(_) => true,
        },
{
}

/// The status after steps with these verdicts.
pub open spec fn status_of(start: JobStatus, verdicts: Seq<Verdict>) -> JobStatus
    decreases verdicts.len(),
{
    if verdicts.len() == 0 {
        start
    } else {
        status_after(status_of(start, verdicts.drop_last()), verdicts.last())
    }
}

/// A job that starts well fails exactly where one of its steps fails and is not
/// forgiven, and never by being skipped.
pub proof fn law_a_job_fails_with_a_step(verdicts: Seq<Verdict>)
    ensures
        status_of(JobStatus::Success, verdicts) == JobStatus::Failure <==> verdicts.contains(
            Verdict::Failed,
        ),
        !verdicts.contains(Verdict::Failed) ==> status_of(JobStatus::Success, verdicts)
            == JobStatus::Success,
    decreases verdicts.len(),
{
    if verdicts.len() > 0 {
        let d = verdicts.drop_last();
        law_a_job_fails_with_a_step(d);
        if d.contains(Verdict::Failed) {
            let i = choose|i: int| 0 <= i < d.len() && d[i] == Verdict::Failed;
            assert(verdicts[i] == Verdict::Failed);
        }
        if verdicts.contains(Verdict::Failed) && !d.contains(Verdict::Failed) {
            let i = choose|i: int| 0 <= i < verdicts.len() && verdicts[i] == Verdict::Failed;
            if i < d.len() {
                assert(d[i] == Verdict::Failed);
            }
        }
        if verdicts.last() == Verdict::Failed {
            assert(verdicts[verdicts.len() - 1] == Verdict::Failed);
        }
    }
}

/// The status of a job when a step has run is what the step's verdict makes of the
/// status before.
pub proof fn law_status_follows_the_verdict(
    r: JobRunView,
    job: JobView,
    s: SurroundingsView,
    ok: bool,
    exit: Option<i32>,
    outputs: Seq<(Text, Text)>,
)
    requires
        step_ended(r, job, s, ok, exit, outputs) is Ok,
    ensures
        judged(job.steps[r.next as int], ok, context_in(r.env->Some_0, r.state, s)) matches Ok(v)
            && step_ended(r, job, s, ok, exit, outputs)->Ok_0.0.state.status == status_after(
            r.state.status,
            v,
        ),
{
}

/// A job begins before its first step, with the variables of the workflow and its
/// own.
pub proof fn law_jobs_begin_at_the_first_step(
    wf: WorkflowView,
    job: JobView,
    matrix: Seq<(Text, Text)>,
    s: SurroundingsView,
)
    ensures
        job_begun(wf, job, matrix, s) matches Ok(r) ==> {
            &&& r.next == 0
            &&& r.env is None
            &&& !r.quit
            &&& started(wf.env, job.env, matrix, s) == Ok::<JobStateView, Fault>(r.state)
        },
        started(wf.env, job.env, matrix, s) matches Err(f) ==> job_begun(wf, job, matrix, s)
            == Err::<JobRunView, Fault>(f),
{
}

/// A step that begins is announced with its number, counted from one, and its
/// label, and has its own variables laid over those of the job.
pub proof fn law_steps_begin_with_their_environment(r: JobRunView, job: JobView, s: SurroundingsView)
    requires
        r.next < job.steps.len(),
        !r.quit,
    ensures
        overlaid(
            r.state.env,
            job.steps[r.next as int].env,
            context_in(r.state.env, r.state, s),
        ) matches Ok(env) ==> (entered(r, job, s) matches Ok(p) && {
            &&& p.0.env == Some(env)
            &&& p.0.state == r.state
            &&& p.0.next == r.next
            &&& !p.0.quit
            &&& p.1 == Some(
                "  ▸ step "@ + decimal(r.next + 1) + ": "@ + label_of(job.steps[r.next as int])
                    + " … "@,
            )
        }),
        overlaid(
            r.state.env,
            job.steps[r.next as int].env,
            context_in(r.state.env, r.state, s),
        ) matches Err(f) ==> entered(r, job, s) == Err::<(JobRunView, Option<Text>), Fault>(f),
{
}

/// A step whose plan is to skip is passed over at once, recorded as skipped; any
/// other is handed out as planned, with the pause that was asked for.
pub proof fn law_steps_are_handed_out_as_planned(
    r: JobRunView,
    job: JobView,
    wf: WorkflowView,
    s: SurroundingsView,
    workspace: Text,
    pause: bool,
    env: Seq<(Text, Text)>,
)
    requires
        r.next < job.steps.len(),
        r.env == Some(env),
    ensures
        ({
            let step = job.steps[r.next as int];
            let plan = planned(step, job, wf, context_in(env, r.state, s), workspace);
            let m = moved(r, job, wf, s, workspace, pause);
            &&& plan == Ok::<PlanView, Fault>(PlanView::Skip) ==> (m matches Ok(p) && p.1
                == MoveView::Skipped("skipped (if condition false)"@) && p.0.next == r.next + 1
                && p.0.env is None && p.0.quit == r.quit && p.0.state == after_step(
                r.state,
                step,
                Verdict::Skipped,
                Seq::empty(),
            ))
            &&& plan matches Ok(PlanView::Run(script, shell, cwd)) ==> m == Ok::<
                (JobRunView, MoveView),
                Fault,
            >((r, MoveView::Script(script, shell, cwd, pause)))
            &&& plan matches Ok(PlanView::Uses(action, with)) ==> m == Ok::<
                (JobRunView, MoveView),
                Fault,
            >((r, MoveView::Uses(action, with, pause)))
            &&& plan matches Err(f) ==> m == Err::<(JobRunView, MoveView), Fault>(f)
        }),
{
}

/// A pause shows the script or the action that is about to run; there is none
/// where none was asked for, nor before a step that is skipped.
pub proof fn law_pauses_show_what_is_next(
    m: MoveView,
    step: StepView,
    job: JobView,
    wf: WorkflowView,
    workspace: Text,
)
    ensures
        m matches MoveView::Script(script, shell, cwd, pause) ==> pause_before(
            m,
            step,
            job,
            wf,
            workspace,
        ) == (if pause {
            Some((script, shell, cwd))
        } else {
            None
        }),
        m matches MoveView::Uses(action, _, pause) ==> pause_before(m, step, job, wf, workspace)
            == (if pause {
            Some(("uses: "@ + action, shell_of(step, job, wf), workspace))
        } else {
            None
        }),
        m is Skipped ==> pause_before(m, step, job, wf, workspace) is None,
{
}

/// When a step has ended the job goes on with what came of it; exports change the
/// job's variables and path alone.
pub proof fn law_what_an_ended_step_leaves(
    r: JobRunView,
    job: JobView,
    s: SurroundingsView,
    ok: bool,
    exit: Option<i32>,
    outputs: Seq<(Text, Text)>,
    io: StepIoView,
    env: Seq<(Text, Text)>,
)
    requires
        r.next < job.steps.len(),
        r.env == Some(env),
    ensures
        ({
            let step = job.steps[r.next as int];
            let c = context_in(env, r.state, s);
            &&& judged(step, ok, c) matches Ok(v) ==> (step_ended(r, job, s, ok, exit, outputs) matches Ok(
                p,
            ) && p.0.state == after_step(r.state, step, v, outputs) && p.0.next == r.next + 1
                && p.0.env is None && p.0.quit == r.quit && p.1 == result_line(
                r.next + 1,
                v,
                exit,
            ))
            &&& judged(step, ok, c) matches Err(f) ==> step_ended(r, job, s, ok, exit, outputs)
                == Err::<(JobRunView, Text), Fault>(f)
        }),
        exported(r, io).state == with_exports(r.state, io),
        exported(r, io).next == r.next,
        exported(r, io).env == r.env,
        exported(r, io).quit == r.quit,
{
}

} // verus!
