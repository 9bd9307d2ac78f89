//! A whole run: which job comes next, with which combination, and what the run
//! has come to.

use crate::exec::context::{
    job_context, make_job_context, JobResult, Surroundings, SurroundingsView,
};
use crate::exec::graph::{job_order, ordered, unknown_need, validate_needs, OrderError, OrderFault};
use crate::exec::matrix::{expand_matrix, expanded, Combo};
use crate::exec::step::{condition, eval_condition};
use crate::expr::error::{ExprError, Fault};
use crate::expr::eval::JobStatus;
use crate::model::{map_list, Job, JobView, Workflow, WorkflowView};
use crate::scan::{join, joined};
use crate::strmap::{map_copy, map_entries, map_entry, map_len, map_new, StrMap};
use crate::table::{law_put_then_lookup, lookup, put};
use crate::tables::{
    job_at, job_len, result_at, result_get, result_len, result_list, result_new, result_put,
    ResultMap,
};
use crate::text::{concat2, concat3, concat4, opt_text, str_eq, texts, Text};
use vstd::prelude::*;

verus! {

/// The job that is being worked on.
#[derive(Debug)]
pub struct Current {
    /// The combinations of its matrix.
    pub combos: Vec<StrMap>,
    /// The one that comes next.
    pub next: usize,
    /// What the job has come to.
    pub result: JobResult,
    /// Whether a failure stops the combinations that have not run.
    pub fail_fast: bool,
    /// Whether every job that it needs succeeded.
    pub needs_ok: bool,
}

/// [`Current`] over views.
#[verifier::ext_equal]
pub struct CurrentView {
    /// The combinations of its matrix.
    pub combos: Seq<Combo>,
    /// The one that comes next.
    pub next: nat,
    /// What the job has come to.
    pub result: JobResult,
    /// Whether a failure stops the rest.
    pub fail_fast: bool,
    /// Whether every job that it needs succeeded.
    pub needs_ok: bool,
}

impl View for Current {
    type V = CurrentView;

    open spec fn view(&self) -> CurrentView {
        CurrentView {
            combos: map_list(self.combos@),
            next: self.next as nat,
            result: self.result,
            fail_fast: self.fail_fast,
            needs_ok: self.needs_ok,
        }
    }
}

/// A run of a workflow.
#[derive(Debug)]
pub struct Run {
    /// The jobs, in the order in which they run.
    pub order: Vec<String>,
    /// How many have ended.
    pub pos: usize,
    /// What they came to.
    pub results: ResultMap,
    /// The one that is being worked on.
    pub current: Option<Current>,
    /// Only one job was asked for, so that nothing waits for what it needs.
    pub single: bool,
    /// The run was left.
    pub quit: bool,
}

/// [`Run`] over views.
#[verifier::ext_equal]
pub struct RunView {
    /// The jobs, in order.
    pub order: Seq<Text>,
    /// How many have ended.
    pub pos: nat,
    /// What they came to.
    pub results: Seq<(Text, JobResult)>,
    /// The one that is being worked on.
    pub current: Option<CurrentView>,
    /// Only one job was asked for.
    pub single: bool,
    /// The run was left.
    pub quit: bool,
}

/// The job that is being worked on, over views.
pub open spec fn opt_current(c: Option<Current>) -> Option<CurrentView> {
    match c {
        Some(x) => Some(x@),
        None => None,
    }
}

impl View for Run {
    type V = RunView;

    open spec fn view(&self) -> RunView {
        RunView {
            order: texts(self.order@),
            pos: self.pos as nat,
            results: result_list(self.results),
            current: opt_current(self.current),
            single: self.single,
            quit: self.quit,
        }
    }
}

/// A run is one of a workflow: its jobs are the workflow's, and all that have
/// ended have a result.
pub open spec fn is_run_of(r: RunView, wf: WorkflowView) -> bool {
    &&& r.pos <= r.order.len()
    &&& forall|i: int| 0 <= i < r.order.len() ==> lookup(wf.jobs, #[trigger] r.order[i]) is Some
    &&& forall|i: int| 0 <= i < r.pos ==> lookup(r.results, #[trigger] r.order[i]) is Some
    &&& r.current matches Some(c) ==> r.pos < r.order.len() && c.next <= c.combos.len()
}

/// A job is about to run, or running: a combination of it comes next.
pub open spec fn in_job(r: RunView) -> bool {
    r.current matches Some(c) && c.next < c.combos.len()
}

// ---------------------------------------------------------------------------
// Start
// ---------------------------------------------------------------------------

/// A run before its first job, or why it cannot start.
pub open spec fn begun(wf: WorkflowView, only: Option<Text>) -> Result<RunView, OrderFault> {
    match unknown_need(wf.jobs, wf.jobs) {
        Some(p) => Err(OrderFault::UnknownNeed(p.0, p.1)),
        None => match ordered(wf.jobs, only) {
            Err(f) => Err(f),
            Ok(order) => Ok(
                RunView {
                    order,
                    pos: 0,
                    results: Seq::empty(),
                    current: None,
                    single: only is Some,
                    quit: false,
                },
            ),
        },
    }
}

/// Begin a run of all jobs, or of one.
pub fn run_workflow(wf: &Workflow, only: &Option<String>) -> (r: Result<Run, OrderError>)
    ensures
        (match r {
            Ok(x) => Ok(x@),
            Err(e) => Err(e@),
        }) == begun(wf@, opt_text(*only)),
        r matches Ok(x) ==> is_run_of(x@, wf@) && x@.current is None,
{
    match validate_needs(wf) {
        Err(e) => {
            return Err(e);
        },
        Ok(_) => {},
    }
    match job_order(wf, only) {
        Err(e) => Err(e),
        Ok(order) => {
            let results = result_new();
            proof {
                lemma_order_is_defined(wf@, opt_text(*only));
            }
            Ok(Run { order, pos: 0, results, current: None, single: only.is_some(), quit: false })
        },
    }
}

/// Every job in an order is defined.
proof fn lemma_order_is_defined(wf: WorkflowView, only: Option<Text>)
    ensures
        ordered(wf.jobs, only) matches Ok(order) ==> forall|i: int|
            0 <= i < order.len() ==> lookup(wf.jobs, #[trigger] order[i]) is Some,
{
    match only {
        Some(_) => {},
        None => crate::exec::graph::lemma_rounds_defined(wf.jobs, Seq::empty()),
    }
}

// ---------------------------------------------------------------------------
// What comes next
// ---------------------------------------------------------------------------

/// Every job that is needed succeeded.
pub open spec fn all_succeeded(needs: Seq<Text>, results: Seq<(Text, JobResult)>) -> bool {
    forall|i: int|
        0 <= i < needs.len() ==> lookup(results, #[trigger] needs[i]) == Some(JobResult::Success)
}

/// The combinations of a job: those of its matrix, or the empty one.
pub open spec fn combos_of(job: JobView) -> Seq<Combo> {
    match job.strategy {
        Some(s) => match s.matrix {
            Some(m) => expanded(m),
            None => seq![Seq::empty()],
        },
        None => seq![Seq::empty()],
    }
}

/// Whether a failure stops the other combinations of a job.
pub open spec fn fails_fast(job: JobView) -> bool {
    match job.strategy {
        Some(s) => s.fail_fast,
        None => true,
    }
}

/// The values of a combination, as they stand behind a job's name.
pub open spec fn suffix_of(c: Combo) -> Text {
    if c.len() == 0 {
        Seq::empty()
    } else {
        " ["@ + joined(c.map_values(|e: (Text, Text)| e.1), ", "@) + "]"@
    }
}

/// What the exit code of a run is: a failure counts more than leaving.
pub open spec fn exit_code(results: Seq<(Text, JobResult)>, quit: bool) -> int {
    if any_failed(results) {
        1
    } else if quit {
        130
    } else {
        0
    }
}

/// A job failed.
pub open spec fn any_failed(results: Seq<(Text, JobResult)>) -> bool {
    exists|i: int| 0 <= i < results.len() && (#[trigger] results[i]).1 == JobResult::Failed
}

/// What a run does next.
#[derive(Debug)]
pub enum Action {
    /// Print a line and ask again.
    Print(String),
    /// Ask again.
    Quiet,
    /// Print the line, then run the job with the combination, and say how it
    /// ended.
    RunJob {
        /// The job.
        id: String,
        /// The combination.
        combo: StrMap,
        /// The line.
        line: String,
    },
    /// End with this code.
    Done(i32),
}

/// [`Action`] over views.
#[verifier::ext_equal]
pub enum ActionView {
    /// Print a line.
    Print(Text),
    /// Nothing.
    Quiet,
    /// Run a job with a combination after printing a line.
    RunJob(Text, Combo, Text),
    /// End.
    Done(int),
}

impl View for Action {
    type V = ActionView;

    open spec fn view(&self) -> ActionView {
        match *self {
            Action::Print(t) => ActionView::Print(t@),
            Action::Quiet => ActionView::Quiet,
            Action::RunJob { id, combo, line } => ActionView::RunJob(
                id@,
                map_entries(combo),
                line@,
            ),
            Action::Done(c) => ActionView::Done(c as int),
        }
    }
}

/// A run in which the job at hand has ended.
pub open spec fn closed(r: RunView, result: JobResult) -> RunView {
    RunView {
        order: r.order,
        pos: r.pos + 1,
        results: put(r.results, r.order[r.pos as int], result),
        current: None,
        single: r.single,
        quit: r.quit,
    }
}

/// A run with another job at hand.
pub open spec fn with_current(r: RunView, c: CurrentView) -> RunView {
    RunView {
        order: r.order,
        pos: r.pos,
        results: r.results,
        current: Some(c),
        single: r.single,
        quit: r.quit,
    }
}

/// A run whose next job is taken up, or passed over.
pub open spec fn opened(r: RunView, id: Text, job: JobView) -> (RunView, ActionView) {
    let needs_ok = r.single || all_succeeded(job.needs, r.results);
    if !needs_ok && job.if_cond is None {
        (
            closed(r, JobResult::Skipped),
            ActionView::Print("\n● job "@ + id + ": skipped (a needed job did not succeed)"@),
        )
    } else if combos_of(job).len() == 0 {
        (
            closed(r, JobResult::Skipped),
            ActionView::Print(
                "\n● job "@ + id + ": skipped (matrix produced no combinations)"@,
            ),
        )
    } else {
        (
            with_current(
                r,
                CurrentView {
                    combos: combos_of(job),
                    next: 0,
                    result: JobResult::Skipped,
                    fail_fast: fails_fast(job),
                    needs_ok,
                },
            ),
            ActionView::Quiet,
        )
    }
}

/// The status that a job's condition sees.
pub open spec fn status_before(needs_ok: bool) -> JobStatus {
    if needs_ok {
        JobStatus::Success
    } else {
        JobStatus::Failure
    }
}

/// Whether a combination of a job runs.
pub open spec fn combo_runs(
    r: RunView,
    c: CurrentView,
    job: JobView,
    wf: WorkflowView,
    s: SurroundingsView,
) -> Result<bool, Fault> {
    match job.if_cond {
        Some(raw) => condition(
            raw,
            job_context(
                wf.env,
                r.results,
                job.needs,
                s,
                c.combos[c.next as int],
                status_before(c.needs_ok),
            ),
        ),
        None => Ok(c.needs_ok),
    }
}

/// What a job is called.
pub open spec fn job_label(job: JobView) -> Text {
    match job.name {
        Some(n) => n,
        None => job.id,
    }
}

/// A job's next combination.
pub open spec fn passed_over(c: CurrentView) -> CurrentView {
    CurrentView {
        combos: c.combos,
        next: c.next + 1,
        result: c.result,
        fail_fast: c.fail_fast,
        needs_ok: c.needs_ok,
    }
}

/// What a run does next, and what it becomes, or why there is no telling.
pub open spec fn advanced(r: RunView, wf: WorkflowView, s: SurroundingsView) -> Result<
    (RunView, ActionView),
    Fault,
> {
    match r.current {
        None => if r.quit || r.pos >= r.order.len() {
            Ok((r, ActionView::Done(exit_code(r.results, r.quit))))
        } else {
            let id = r.order[r.pos as int];
            Ok(opened(r, id, lookup(wf.jobs, id)->Some_0))
        },
        Some(c) => if c.next >= c.combos.len() {
            Ok((closed(r, c.result), ActionView::Quiet))
        } else {
            let id = r.order[r.pos as int];
            let job = lookup(wf.jobs, id)->Some_0;
            let head = "\n● job "@ + id + suffix_of(c.combos[c.next as int]);
            match combo_runs(r, c, job, wf, s) {
                Err(f) => Err(f),
                Ok(false) => Ok(
                    (
                        with_current(r, passed_over(c)),
                        ActionView::Print(head + ": skipped (if condition false)"@),
                    ),
                ),
                Ok(true) => Ok(
                    (
                        r,
                        ActionView::RunJob(
                            id,
                            c.combos[c.next as int],
                            head + " ("@ + job_label(job) + ")"@,
                        ),
                    ),
                ),
            }
        },
    }
}

/// Whether every job that is needed succeeded.
fn needs_succeeded(needs: &Vec<String>, results: &ResultMap) -> (r: bool)
    ensures
        r == all_succeeded(texts(needs@), result_list(*results)),
{
    let ghost nv = texts(needs@);
    let mut i: usize = 0;
    while i < needs.len()
        invariant
            i <= needs@.len(),
            nv == texts(needs@),
            forall|k: int|
                0 <= k < i ==> lookup(result_list(*results), #[trigger] nv[k]) == Some(
                    JobResult::Success,
                ),
        decreases needs@.len() - i,
    {
        assert(nv[i as int] == needs@[i as int]@);
        match result_get(results, needs[i].as_str()) {
            Some(JobResult::Success) => {},
            _ => {
                return false;
            },
        }
        i += 1;
    }
    true
}

/// The combinations of a job.
pub fn job_combos(job: &Job) -> (r: Vec<StrMap>)
    ensures
        map_list(r@) == combos_of(job@),
{
    match &job.strategy {
        Some(s) => match &s.matrix {
            Some(m) => {
                return expand_matrix(m);
            },
            None => {},
        },
        None => {},
    }
    let mut one: Vec<StrMap> = Vec::new();
    one.push(map_new());
    assert(map_list(one@) =~= seq![Seq::<(Text, Text)>::empty()]);
    one
}

/// The values of a combination, as they stand behind a job's name.
pub fn combo_suffix(combo: &StrMap) -> (r: String)
    ensures
        r@ == suffix_of(map_entries(*combo)),
{
    let n = map_len(combo);
    if n == 0 {
        let e = String::new();
        assert(e@ =~= Seq::empty());
        return e;
    }
    let ghost all = map_entries(*combo).map_values(|e: (Text, Text)| e.1);
    let mut values: Vec<String> = Vec::new();
    let mut i: usize = 0;
    assert(texts(values@) =~= all.take(0));
    while i < n
        invariant
            i <= n,
            n == all.len(),
            n == map_entries(*combo).len(),
            all == map_entries(*combo).map_values(|e: (Text, Text)| e.1),
            texts(values@) == all.take(i as int),
        decreases n - i,
    {
        let ghost done = texts(values@);
        let (_, v) = map_entry(combo, i);
        assert(all[i as int] == v@);
        values.push(v);
        assert(texts(values@) =~= done.push(v@));
        assert(texts(values@) =~= all.take(i + 1));
        i += 1;
    }
    assert(all.take(n as int) =~= all);
    concat3(" [", join(&values, ", ").as_str(), "]")
}

/// Whether a job failed.
fn has_failed(results: &ResultMap) -> (r: bool)
    ensures
        r == any_failed(result_list(*results)),
{
    let ghost all = result_list(*results);
    let mut i: usize = 0;
    let total = result_len(results);
    while i < total
        invariant
            i <= total,
            total == all.len(),
            all == result_list(*results),
            forall|k: int| 0 <= k < i ==> (#[trigger] all[k]).1 != JobResult::Failed,
        decreases total - i,
    {
        let (id, result) = result_at(results, i);
        assert(all[i as int] == (id@, *result));
        if *result == JobResult::Failed {
            return true;
        }
        i += 1;
    }
    false
}

/// Setting the result of the job at hand gives every job that has ended one.
proof fn lemma_closed(r: RunView, wf: WorkflowView, result: JobResult)
    requires
        is_run_of(r, wf),
        r.pos < r.order.len(),
    ensures
        is_run_of(closed(r, result), wf),
{
    let n = closed(r, result);
    assert forall|i: int| 0 <= i < n.pos implies lookup(n.results, #[trigger] n.order[i]) is Some by {
        law_put_then_lookup(r.results, r.order[r.pos as int], result, r.order[i]);
    }
}

impl Run {
    /// End the job at hand.
    fn close(&mut self, result: JobResult, Ghost(wf): Ghost<WorkflowView>)
        requires
            is_run_of(old(self)@, wf),
            old(self)@.pos < old(self)@.order.len(),
        ensures
            final(self)@ == closed(old(self)@, result),
            is_run_of(final(self)@, wf),
    {
        proof {
            lemma_closed(self@, wf, result);
        }
        let id = self.order[self.pos].clone();
        assert(texts(self.order@)[self.pos as int] == id@);
        result_put(&mut self.results, id, result);
        let n = self.order.len();
        assert(self.pos < n);
        self.pos = self.pos + 1;
        self.current = None;
    }

    /// Decide what to do next. Where a number has to be converted first the run
    /// stays as it is.
    pub fn advance(&mut self, wf: &Workflow, s: &Surroundings) -> (r: Result<Action, ExprError>)
        requires
            is_run_of(old(self)@, wf@),
        ensures
            is_run_of(final(self)@, wf@),
            match r {
                Ok(a) => advanced(old(self)@, wf@, s@) == Ok::<(RunView, ActionView), Fault>(
                    (final(self)@, a@),
                ) && (a is RunJob ==> in_job(final(self)@)),
                Err(e) => final(self)@ == old(self)@ && advanced(old(self)@, wf@, s@) == Err::<
                    (RunView, ActionView),
                    Fault,
                >(e@),
            },
    {
        let ghost was = self@;
        if self.current.is_none() {
            if self.quit || self.pos >= self.order.len() {
                let code: i32 = if has_failed(&self.results) {
                    1
                } else if self.quit {
                    130
                } else {
                    0
                };
                return Ok(Action::Done(code));
            }
            let id = self.order[self.pos].clone();
            assert(was.order[was.pos as int] == id@);
            let job = match wf.job(id.as_str()) {
                Some(j) => j,
                None => {
                    assert(false);
                    return Ok(Action::Quiet);
                },
            };
            let needs_ok = self.single || needs_succeeded(&job.needs, &self.results);
            if !needs_ok && job.if_cond.is_none() {
                self.close(JobResult::Skipped, Ghost(wf@));
                return Ok(
                    Action::Print(
                        concat3(
                            "\n● job ",
                            id.as_str(),
                            ": skipped (a needed job did not succeed)",
                        ),
                    ),
                );
            }
            let combos = job_combos(job);
            if combos.len() == 0 {
                self.close(JobResult::Skipped, Ghost(wf@));
                return Ok(
                    Action::Print(
                        concat3(
                            "\n● job ",
                            id.as_str(),
                            ": skipped (matrix produced no combinations)",
                        ),
                    ),
                );
            }
            let fail_fast = match &job.strategy {
                Some(x) => x.fail_fast,
                None => true,
            };
            self.current = Some(
                Current { combos, next: 0, result: JobResult::Skipped, fail_fast, needs_ok },
            );
            return Ok(Action::Quiet);
        }
        let (skip, action) = match &self.current {
            None => {
                return Ok(Action::Quiet);
            },
            Some(c) => {
                if c.next >= c.combos.len() {
                    let result = c.result;
                    self.close(result, Ghost(wf@));
                    return Ok(Action::Quiet);
                }
                let id = self.order[self.pos].clone();
                assert(was.order[was.pos as int] == id@);
                let job = match wf.job(id.as_str()) {
                    Some(j) => j,
                    None => {
                        assert(false);
                        return Ok(Action::Quiet);
                    },
                };
                let combo = &c.combos[c.next];
                assert(was.current->Some_0.combos[c.next as int] == map_entries(*combo));
                let suffix = combo_suffix(combo);
                let goes = match &job.if_cond {
                    Some(raw) => {
                        let status = if c.needs_ok {
                            JobStatus::Success
                        } else {
                            JobStatus::Failure
                        };
                        let jc = make_job_context(&wf.env, &self.results, job, s, combo, status);
                        match eval_condition(raw.as_str(), &jc) {
                            Ok(b) => b,
                            Err(e) => {
                                return Err(e);
                            },
                        }
                    },
                    None => c.needs_ok,
                };
                let head = concat3("\n● job ", id.as_str(), suffix.as_str());
                if goes {
                    let label = match &job.name {
                        Some(n) => n.clone(),
                        None => job.id.clone(),
                    };
                    let line = concat4(head.as_str(), " (", label.as_str(), ")");
                    (false, Action::RunJob { id, combo: map_copy(combo), line })
                } else {
                    (
                        true,
                        Action::Print(concat2(head.as_str(), ": skipped (if condition false)")),
                    )
                }
            },
        };
        if skip {
            self.pass_over();
        }
        Ok(action)
    }

    /// Go on to the next combination.
    fn pass_over(&mut self)
        requires
            in_job(old(self)@),
        ensures
            final(self)@ == with_current(old(self)@, passed_over(old(self)@.current->Some_0)),
    {
        let mut cur: Option<Current> = None;
        std::mem::swap(&mut cur, &mut self.current);
        match cur {
            Some(c) => {
                let Current { combos, next, result, fail_fast, needs_ok } = c;
                let n = combos.len();
                assert(next < n);
                self.current = Some(
                    Current { combos, next: next + 1, result, fail_fast, needs_ok },
                );
            },
            None => {},
        }
    }

    /// Take in how the job that was run ended, and return a line to print, if
    /// there is one.
    pub fn job_ended(&mut self, wf: &Workflow, status: JobStatus, quit: bool) -> (r: Option<String>)
        requires
            is_run_of(old(self)@, wf@),
            in_job(old(self)@),
        ensures
            is_run_of(final(self)@, wf@),
            (final(self)@, opt_text(r)) == ended(old(self)@, status, quit),
    {
        let ghost was = self@;
        let mut cur: Option<Current> = None;
        std::mem::swap(&mut cur, &mut self.current);
        match cur {
            None => None,
            Some(c) => {
                let Current { combos, next, result, fail_fast, needs_ok } = c;
                let n = combos.len();
                let now = if status == JobStatus::Failure {
                    JobResult::Failed
                } else if result == JobResult::Skipped {
                    JobResult::Success
                } else {
                    result
                };
                if quit {
                    self.close(now, Ghost(wf@));
                    self.quit = true;
                    Some("\n(quit — remaining jobs not run)".to_owned())
                } else if status == JobStatus::Failure && fail_fast && n > 1 {
                    self.close(now, Ghost(wf@));
                    Some("  (fail-fast: skipping the remaining matrix combinations)".to_owned())
                } else {
                    self.current = Some(
                        Current { combos, next: next + 1, result: now, fail_fast, needs_ok },
                    );
                    None
                }
            },
        }
    }
}

/// What a job has come to when one more combination has ended.
pub open spec fn result_after(result: JobResult, status: JobStatus) -> JobResult {
    if status == JobStatus::Failure {
        JobResult::Failed
    } else if result == JobResult::Skipped {
        JobResult::Success
    } else {
        result
    }
}

/// A run when the job that was run has ended, and the line to print.
pub open spec fn ended(r: RunView, status: JobStatus, quit: bool) -> (RunView, Option<Text>) {
    let c = r.current->Some_0;
    let now = result_after(c.result, status);
    if quit {
        let n = closed(r, now);
        (
            RunView {
                order: n.order,
                pos: n.pos,
                results: n.results,
                current: None,
                single: n.single,
                quit: true,
            },
            Some("\n(quit — remaining jobs not run)"@),
        )
    } else if status == JobStatus::Failure && c.fail_fast && c.combos.len() > 1 {
        (closed(r, now), Some("  (fail-fast: skipping the remaining matrix combinations)"@))
    } else {
        (
            with_current(
                r,
                CurrentView {
                    combos: c.combos,
                    next: c.next + 1,
                    result: now,
                    fail_fast: c.fail_fast,
                    needs_ok: c.needs_ok,
                },
            ),
            None,
        )
    }
}

// ---------------------------------------------------------------------------
// Laws
// ---------------------------------------------------------------------------

/// How far a run is from its end: jobs left, whether one is at hand, and
/// combinations left.
pub open spec fn left(r: RunView) -> (nat, nat, nat) {
    (
        (r.order.len() - r.pos) as nat,
        if r.current is None {
            1
        } else {
            0
        },
        match r.current {
            Some(c) => (c.combos.len() - c.next) as nat,
            None => 0,
        },
    )
}

/// One is nearer to the end than another.
pub open spec fn nearer(a: (nat, nat, nat), b: (nat, nat, nat)) -> bool {
    a.0 < b.0 || (a.0 == b.0 && (a.1 < b.1 || (a.1 == b.1 && a.2 < b.2)))
}

/// A run comes to an end: every move brings it nearer, but for running a job,
/// whose end brings it nearer.
pub proof fn law_runs_end(r: RunView, wf: WorkflowView, s: SurroundingsView)
    requires
        is_run_of(r, wf),
    ensures
        advanced(r, wf, s) matches Ok(p) ==> match p.1 {
            ActionView::Done(_) => p.0 == r,
            ActionView::RunJob(_, _, _) => p.0 == r && in_job(r),
            _ => nearer(left(p.0), left(r)),
        },
{
}

/// The end of a job that was run brings a run nearer to its end.
pub proof fn law_ended_jobs_bring_the_end_nearer(r: RunView, wf: WorkflowView, status: JobStatus, quit: bool)
    requires
        is_run_of(r, wf),
        in_job(r),
    ensures
        nearer(left(ended(r, status, quit).0), left(r)),
{
}

/// Where a whole run takes up a job without a condition, every job that it needs
/// has succeeded.
pub proof fn law_jobs_wait_for_what_they_need(r: RunView, wf: WorkflowView, s: SurroundingsView)
    requires
        is_run_of(r, wf),
        !r.single,
        r.current is None,
        !r.quit,
        r.pos < r.order.len(),
        lookup(wf.jobs, r.order[r.pos as int])->Some_0.if_cond is None,
    ensures
        advanced(r, wf, s) matches Ok(p) && (p.0.current is Some ==> all_succeeded(
            lookup(wf.jobs, r.order[r.pos as int])->Some_0.needs,
            r.results,
        )),
{
}

/// A run that was not left ends with a result for every job.
pub proof fn law_every_job_gets_a_result(r: RunView, wf: WorkflowView, s: SurroundingsView, i: int)
    requires
        is_run_of(r, wf),
        !r.quit,
        advanced(r, wf, s) matches Ok(p) && p.1 is Done,
        0 <= i < r.order.len(),
    ensures
        lookup(r.results, r.order[i]) is Some,
{
}

/// A failed job makes the exit code 1, whether or not the run was left; without
/// one, it is 130 for a run that was left and 0 for one that was not.
pub proof fn law_exit_codes(results: Seq<(Text, JobResult)>, quit: bool)
    ensures
        exit_code(results, quit) == 1 <==> any_failed(results),
        exit_code(results, quit) == 130 <==> !any_failed(results) && quit,
        exit_code(results, quit) == 0 <==> !any_failed(results) && !quit,
{
}

/// A combination that failed makes its job fail, whatever the others do.
pub proof fn law_a_failed_combination_fails_the_job(result: JobResult, status: JobStatus)
    ensures
        result == JobResult::Failed ==> result_after(result, status) == JobResult::Failed,
        status == JobStatus::Failure ==> result_after(result, status) == JobResult::Failed,
{
}

// ---------------------------------------------------------------------------
// Breakpoints
// ---------------------------------------------------------------------------

/// A step of one of the jobs has an id.
pub open spec fn is_step_id(jobs: Seq<(Text, JobView)>, id: Text) -> bool {
    exists|i: int, k: int|
        0 <= i < jobs.len() && 0 <= k < jobs[i].1.steps.len() && (#[trigger] jobs[i].1.steps[k]).id
            == Some(id)
}

/// What is said of breakpoints that no step has.
pub open spec fn breakpoint_notes(jobs: Seq<(Text, JobView)>, points: Seq<Text>) -> Seq<Text>
    decreases points.len(),
{
    if points.len() == 0 {
        Seq::empty()
    } else {
        let rest = breakpoint_notes(jobs, points.drop_last());
        if is_step_id(jobs, points.last()) {
            rest
        } else {
            rest.push(
                "note: no step has id `"@ + points.last()
                    + "` — that breakpoint will never fire."@,
            )
        }
    }
}

/// Whether a step of the workflow has an id.
fn has_step(wf: &Workflow, id: &str) -> (r: bool)
    ensures
        r == is_step_id(wf@.jobs, id@),
{
    let ghost jobs = wf@.jobs;
    let mut i: usize = 0;
    let total = job_len(&wf.jobs);
    while i < total
        invariant
            i <= total,
            total == jobs.len(),
            jobs == wf@.jobs,
            forall|a: int, k: int|
                0 <= a < i && 0 <= k < jobs[a].1.steps.len() ==> (
                #[trigger] jobs[a].1.steps[k]).id != Some(id@),
        decreases total - i,
    {
        let steps = &job_at(&wf.jobs, i).1.steps;
        let ghost sv = jobs[i as int].1.steps;
        let mut k: usize = 0;
        while k < steps.len()
            invariant
                i < total,
                total == jobs.len(),
                k <= steps@.len(),
                jobs == wf@.jobs,
                sv == jobs[i as int].1.steps,
                sv == crate::model::step_views(steps@),
                forall|b: int| 0 <= b < k ==> (#[trigger] sv[b]).id != Some(id@),
            decreases steps@.len() - k,
        {
            assert(sv[k as int] == steps@[k as int]@);
            match &steps[k].id {
                Some(x) => {
                    if str_eq(x.as_str(), id) {
                        assert(jobs[i as int].1.steps[k as int].id == Some(id@));
                        return true;
                    }
                },
                None => {},
            }
            k += 1;
        }
        i += 1;
    }
    false
}

/// Say of which breakpoints no step has the id, so that a slip is not silent.
pub fn unknown_breakpoints(wf: &Workflow, points: &Vec<String>) -> (r: Vec<String>)
    ensures
        texts(r@) == breakpoint_notes(wf@.jobs, texts(points@)),
{
    let ghost all = texts(points@);
    let mut out: Vec<String> = Vec::new();
    let mut i: usize = 0;
    assert(all.take(0) =~= Seq::empty());
    assert(texts(out@) =~= Seq::empty());
    while i < points.len()
        invariant
            i <= points@.len(),
            all == texts(points@),
            texts(out@) == breakpoint_notes(wf@.jobs, all.take(i as int)),
        decreases points@.len() - i,
    {
        let ghost done = texts(out@);
        assert(all.take(i + 1).drop_last() =~= all.take(i as int));
        assert(all.take(i + 1).last() == points@[i as int]@);
        if !has_step(wf, points[i].as_str()) {
            let t = concat3(
                "note: no step has id `",
                points[i].as_str(),
                "` — that breakpoint will never fire.",
            );
            out.push(t);
            assert(texts(out@) =~= done.push(t@));
        }
        i += 1;
    }
    assert(all.take(points@.len() as int) =~= all);
    out
}

// ---------------------------------------------------------------------------
// Laws of whole runs
// ---------------------------------------------------------------------------

/// The job that comes next.
pub open spec fn job_at_hand(r: RunView, wf: WorkflowView) -> JobView {
    lookup(wf.jobs, r.order[r.pos as int])->Some_0
}

/// A run is between two jobs, and another one follows.
pub open spec fn is_between_jobs(r: RunView, wf: WorkflowView) -> bool {
    is_run_of(r, wf) && r.current is None && !r.quit && r.pos < r.order.len()
}

/// A job without a condition that needs a job that failed, was skipped or has no
/// result is skipped in a whole run: it runs with no combination, and whatever
/// needs it is skipped in turn. What other jobs came to stays.
pub proof fn law_jobs_are_skipped_with_what_they_need(
    r: RunView,
    wf: WorkflowView,
    s: SurroundingsView,
    n: int,
    other: Text,
)
    requires
        is_between_jobs(r, wf),
        !r.single,
        job_at_hand(r, wf).if_cond is None,
        0 <= n < job_at_hand(r, wf).needs.len(),
        match lookup(r.results, job_at_hand(r, wf).needs[n]) {
            None => true,
            Some(JobResult::Failed) => true,
            Some(JobResult::Skipped) => true,
            Some(JobResult::Success) => false,
        },
        other != r.order[r.pos as int],
    ensures
        advanced(r, wf, s) matches Ok(p) && {
            &&& p.1 == ActionView::Print(
                "\n● job "@ + r.order[r.pos as int] + ": skipped (a needed job did not succeed)"@,
            )
            &&& p.0.current is None
            &&& p.0.pos == r.pos + 1
            &&& p.0.order == r.order
            &&& p.0.quit == r.quit
            &&& lookup(p.0.results, r.order[r.pos as int]) == Some(JobResult::Skipped)
            &&& lookup(p.0.results, other) == lookup(r.results, other)
        },
{
    let id = r.order[r.pos as int];
    let job = job_at_hand(r, wf);
    assert(lookup(r.results, job.needs[n]) != Some(JobResult::Success));
    assert(!all_succeeded(job.needs, r.results));
    law_put_then_lookup(r.results, id, JobResult::Skipped, other);
}

/// A job is taken up with all its combinations where every job that it needs
/// succeeded, where it alone was asked for, or where it has a condition. Without a
/// condition its first combination then runs.
pub proof fn law_jobs_run_when_their_needs_succeeded(
    r: RunView,
    wf: WorkflowView,
    s: SurroundingsView,
)
    requires
        is_between_jobs(r, wf),
        combos_of(job_at_hand(r, wf)).len() > 0,
        r.single || job_at_hand(r, wf).if_cond is Some || forall|k: int|
            0 <= k < job_at_hand(r, wf).needs.len() ==> (lookup(
                r.results,
                #[trigger] job_at_hand(r, wf).needs[k],
            ) matches Some(x) && x is Success),
    ensures
        advanced(r, wf, s) matches Ok(p) && {
            &&& p.1 is Quiet
            &&& p.0.pos == r.pos
            &&& p.0.order == r.order
            &&& p.0.results == r.results
            &&& p.0.current matches Some(c) && c.next == 0 && c.combos == combos_of(
                job_at_hand(r, wf),
            ) && c.result is Skipped
            &&& job_at_hand(r, wf).if_cond is None ==> (advanced(p.0, wf, s) matches Ok(q) && q.1
                == ActionView::RunJob(
                r.order[r.pos as int],
                combos_of(job_at_hand(r, wf))[0],
                "\n● job "@ + r.order[r.pos as int] + suffix_of(combos_of(job_at_hand(r, wf))[0])
                    + " ("@ + job_label(job_at_hand(r, wf)) + ")"@,
            ))
        },
{
    let job = job_at_hand(r, wf);
    if !r.single && job.if_cond is None {
        assert forall|k: int| 0 <= k < job.needs.len() implies lookup(
            r.results,
            #[trigger] job.needs[k],
        ) == Some(JobResult::Success) by {
            let x = job_at_hand(r, wf).needs[k];
            assert(lookup(r.results, x) is Some);
        }
        assert(all_succeeded(job.needs, r.results));
    }
}

/// A job's condition decides for each combination whether it runs. It sees a
/// failure exactly where a needed job did not succeed, unless the job alone was
/// asked for; and a combination that it turns down changes nothing but what comes
/// next.
pub proof fn law_conditions_decide_for_each_combination(
    r: RunView,
    wf: WorkflowView,
    s: SurroundingsView,
    raw: Text,
    met: bool,
)
    requires
        is_between_jobs(r, wf),
        combos_of(job_at_hand(r, wf)).len() > 0,
        job_at_hand(r, wf).if_cond == Some(raw),
        met == (r.single || forall|k: int|
            0 <= k < job_at_hand(r, wf).needs.len() ==> (lookup(
                r.results,
                #[trigger] job_at_hand(r, wf).needs[k],
            ) matches Some(x) && x is Success)),
    ensures
        advanced(r, wf, s) matches Ok(p) && {
            let seen = condition(
                raw,
                job_context(
                    wf.env,
                    r.results,
                    job_at_hand(r, wf).needs,
                    s,
                    combos_of(job_at_hand(r, wf))[0],
                    if met {
                        JobStatus::Success
                    } else {
                        JobStatus::Failure
                    },
                ),
            );
            &&& seen matches Err(f) ==> advanced(p.0, wf, s) == Err::<(RunView, ActionView), Fault>(f)
            &&& seen == Ok::<bool, Fault>(true) ==> (advanced(p.0, wf, s) matches Ok(q) && q.0 == p.0
                && q.1 is RunJob)
            &&& seen == Ok::<bool, Fault>(false) ==> (advanced(p.0, wf, s) matches Ok(q) && {
                &&& q.1 is Print
                &&& q.0.pos == r.pos
                &&& q.0.results == r.results
                &&& q.0.current matches Some(c) && c.next == 1 && c.result is Skipped && c.combos
                    == combos_of(job_at_hand(r, wf))
            })
        },
{
    let job = job_at_hand(r, wf);
    assert(met == (r.single || all_succeeded(job.needs, r.results))) by {
        if all_succeeded(job.needs, r.results) {
            assert forall|k: int| 0 <= k < job.needs.len() implies (lookup(
                r.results,
                #[trigger] job_at_hand(r, wf).needs[k],
            ) matches Some(x) && x is Success) by {
                assert(lookup(r.results, job.needs[k]) == Some(JobResult::Success));
            }
        }
        if met && !r.single {
            assert forall|k: int| 0 <= k < job.needs.len() implies lookup(
                r.results,
                #[trigger] job.needs[k],
            ) == Some(JobResult::Success) by {
                let x = job_at_hand(r, wf).needs[k];
                assert(lookup(r.results, x) is Some);
            }
        }
    }
}

/// A job without a matrix runs once, with no values; one whose matrix gives no
/// combination is skipped without running.
pub proof fn law_jobs_without_a_matrix_run_once(r: RunView, wf: WorkflowView, s: SurroundingsView)
    requires
        is_between_jobs(r, wf),
        r.single,
    ensures
        (match job_at_hand(r, wf).strategy {
            None => true,
            Some(st) => st.matrix is None,
        }) ==> (advanced(r, wf, s) matches Ok(p) && (p.0.current matches Some(c) && c.combos.len()
            == 1 && c.combos[0].len() == 0)),
        job_at_hand(r, wf).strategy matches Some(st) && (st.matrix matches Some(m) && {
            &&& expanded(m).len() > 0 ==> (advanced(r, wf, s) matches Ok(p) && (
            p.0.current matches Some(c) && c.combos == expanded(m)))
            &&& expanded(m).len() == 0 ==> (advanced(r, wf, s) matches Ok(p) && p.0.current is None
                && p.0.pos == r.pos + 1 && lookup(p.0.results, r.order[r.pos as int]) == Some(
                JobResult::Skipped,
            ))
        }) || !(job_at_hand(r, wf).strategy matches Some(st) && st.matrix is Some),
{
    let id = r.order[r.pos as int];
    law_put_then_lookup(r.results, id, JobResult::Skipped, id);
}

/// Combinations run one after the other. One that failed makes its job fail for
/// good, one that did not makes it succeed unless another failed; the rest of them
/// are left out exactly where one failed and the strategy, or the lack of one, says
/// so, or the run is left.
pub proof fn law_combinations_run_in_turn(
    r: RunView,
    wf: WorkflowView,
    status: JobStatus,
    quit: bool,
    other: Text,
)
    requires
        is_run_of(r, wf),
        in_job(r),
        other != r.order[r.pos as int],
    ensures
        ({
            let was = r.current->Some_0;
            let now = ended(r, status, quit).0;
            let failed = status is Failure || was.result is Failed;
            let stops = quit || (status is Failure && was.fail_fast && was.combos.len() >= 2);
            &&& now.order == r.order
            &&& now.single == r.single
            &&& now.quit == (r.quit || quit)
            &&& lookup(now.results, other) == lookup(r.results, other)
            &&& stops ==> now.current is None && now.pos == r.pos + 1 && (lookup(
                now.results,
                r.order[r.pos as int],
            ) matches Some(x) && (x is Failed <==> failed) && (x is Success <==> !failed))
            &&& !stops ==> now.pos == r.pos && now.results == r.results && (
            now.current matches Some(c) && c.next == was.next + 1 && c.combos == was.combos
                && c.fail_fast == was.fail_fast && c.needs_ok == was.needs_ok && (c.result is Failed
                <==> failed) && (c.result is Success <==> !failed))
        }),
{
    let was = r.current->Some_0;
    let id = r.order[r.pos as int];
    law_put_then_lookup(r.results, id, result_after(was.result, status), other);
}

/// A failure stops the other combinations of a job unless its strategy says that
/// it does not.
pub proof fn law_failures_stop_a_matrix_by_default(r: RunView, wf: WorkflowView, s: SurroundingsView)
    requires
        is_between_jobs(r, wf),
    ensures
        advanced(r, wf, s) matches Ok(p) && (p.0.current matches Some(c) ==> (c.fail_fast <==> !(
        job_at_hand(r, wf).strategy matches Some(st) && !st.fail_fast))),
{
}

/// A job that has gone through its combinations comes to what they came to, and
/// nothing else changes; while one is left it is the one that runs.
pub proof fn law_jobs_come_to_what_their_combinations_came_to(
    r: RunView,
    wf: WorkflowView,
    s: SurroundingsView,
    other: Text,
)
    requires
        is_run_of(r, wf),
        r.current is Some,
        other != r.order[r.pos as int],
    ensures
        r.current->Some_0.next == r.current->Some_0.combos.len() ==> (advanced(
            r,
            wf,
            s,
        ) matches Ok(p) && p.1 is Quiet && p.0.current is None && p.0.pos == r.pos + 1 && p.0.order
            == r.order && p.0.quit == r.quit && lookup(p.0.results, r.order[r.pos as int]) == Some(
            r.current->Some_0.result,
        ) && lookup(p.0.results, other) == lookup(r.results, other)),
        r.current->Some_0.next < r.current->Some_0.combos.len() ==> (advanced(
            r,
            wf,
            s,
        ) matches Ok(p) ==> match p.1 {
            ActionView::RunJob(id, combo, _) => id == r.order[r.pos as int] && combo
                == r.current->Some_0.combos[r.current->Some_0.next as int],
            ActionView::Print(_) => p.0.current matches Some(c) && c.next
                == r.current->Some_0.next + 1 && c.result == r.current->Some_0.result,
            _ => false,
        }),
{
    let id = r.order[r.pos as int];
    law_put_then_lookup(r.results, id, r.current->Some_0.result, other);
}

/// A run ends where it was left or no job follows, and nowhere else; its code is 1
/// where a result is a failure, else 130 where it was left, else 0.
pub proof fn law_the_end_of_a_run(r: RunView, wf: WorkflowView, s: SurroundingsView)
    requires
        is_run_of(r, wf),
    ensures
        (advanced(r, wf, s) matches Ok(p) && p.1 is Done) <==> (r.current is None && (r.quit || r.pos
            == r.order.len())),
        advanced(r, wf, s) matches Ok(p) ==> (p.1 matches ActionView::Done(code) ==> {
            &&& (exists|k: int| 0 <= k < r.results.len() && (#[trigger] r.results[k]).1 is Failed)
                ==> code == 1
            &&& (forall|k: int| 0 <= k < r.results.len() ==> !((#[trigger] r.results[k]).1 is Failed))
                ==> code == (if r.quit {
                130int
            } else {
                0int
            })
        }),
{
    if exists|k: int| 0 <= k < r.results.len() && (#[trigger] r.results[k]).1 is Failed {
        let k = choose|k: int| 0 <= k < r.results.len() && (#[trigger] r.results[k]).1 is Failed;
        assert(r.results[k].1 == JobResult::Failed);
        assert(any_failed(r.results));
    }
}

/// A run begins with the first job of its order, with no results; nothing waits
/// for what it needs where one job was asked for. It does not begin where a job
/// needs one that is not defined.
pub proof fn law_runs_begin_at_the_first_job(wf: WorkflowView, only: Option<Text>)
    ensures
        begun(wf, only) matches Ok(r) ==> r.pos == 0 && r.results.len() == 0 && r.current is None
            && !r.quit && (r.single <==> only is Some) && ordered(wf.jobs, only) == Ok::<
            Seq<Text>,
            OrderFault,
        >(r.order),
        begun(wf, only) matches Ok(r) ==> forall|i: int, k: int|
            0 <= i < wf.jobs.len() && 0 <= k < wf.jobs[i].1.needs.len() ==> lookup(
                wf.jobs,
                #[trigger] wf.jobs[i].1.needs[k],
            ) is Some,
        (exists|i: int, k: int|
            0 <= i < wf.jobs.len() && 0 <= k < wf.jobs[i].1.needs.len() && lookup(
                wf.jobs,
                #[trigger] wf.jobs[i].1.needs[k],
            ) is None) ==> (begun(wf, only) matches Err(f) && f is UnknownNeed),
{
    crate::exec::graph::law_needs_are_defined(wf.jobs);
}

/// The values of a combination stand in brackets behind the job's name, in their
/// order, with a comma between two; no values, no brackets.
pub proof fn law_values_stand_behind_the_name(c: Combo, k: Text, v: Text)
    ensures
        suffix_of(Seq::empty()) == Seq::<char>::empty(),
        suffix_of(seq![(k, v)]) == " ["@ + v + "]"@,
        c.len() > 0 ==> suffix_of(c.push((k, v))) == suffix_of(c).drop_last() + ", "@ + v + "]"@,
{
    let f = |e: (Text, Text)| e.1;
    reveal_strlit("]");
    assert(seq![(k, v)].map_values(f) =~= seq![v]);
    if c.len() > 0 {
        let d = c.push((k, v)).map_values(f);
        assert(d.drop_last() =~= c.map_values(f));
        assert(d.last() == v);
        let a = " ["@ + joined(c.map_values(f), ", "@);
        assert(suffix_of(c) =~= a + "]"@);
        assert(suffix_of(c).drop_last() =~= a);
        assert(suffix_of(c.push((k, v))) =~= a + ", "@ + v + "]"@);
    }
}

/// A breakpoint is noted exactly where no step of any job has its id, one note for
/// each, in order.
pub proof fn law_breakpoints_without_a_step_are_noted(
    jobs: Seq<(Text, JobView)>,
    points: Seq<Text>,
    point: Text,
)
    ensures
        (exists|i: int, k: int|
            0 <= i < jobs.len() && 0 <= k < jobs[i].1.steps.len() && (
            #[trigger] jobs[i].1.steps[k].id) == Some(point)) ==> breakpoint_notes(
            jobs,
            points.push(point),
        ) == breakpoint_notes(jobs, points),
        (forall|i: int, k: int|
            0 <= i < jobs.len() && 0 <= k < jobs[i].1.steps.len() ==> (
            #[trigger] jobs[i].1.steps[k].id) != Some(point)) ==> breakpoint_notes(
            jobs,
            points.push(point),
        ) == breakpoint_notes(jobs, points).push(
            "note: no step has id `"@ + point + "` — that breakpoint will never fire."@,
        ),
        breakpoint_notes(jobs, Seq::empty()).len() == 0,
{
    assert(points.push(point).drop_last() =~= points);
    if exists|i: int, k: int|
        0 <= i < jobs.len() && 0 <= k < jobs[i].1.steps.len() && (#[trigger] jobs[i].1.steps[k].id)
            == Some(point) {
        let (i, k) = choose|i: int, k: int|
            0 <= i < jobs.len() && 0 <= k < jobs[i].1.steps.len() && (
            #[trigger] jobs[i].1.steps[k].id) == Some(point);
        assert(jobs[i].1.steps[k].id == Some(point));
        assert(is_step_id(jobs, point));
    }
    if is_step_id(jobs, point) {
        let (i, k) = choose|i: int, k: int|
            0 <= i < jobs.len() && 0 <= k < jobs[i].1.steps.len() && (#[trigger] jobs[i].1.steps[k]).id
                == Some(point);
        assert(jobs[i].1.steps[k].id == Some(point));
    }
}

} // verus!
