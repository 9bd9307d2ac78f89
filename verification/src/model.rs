//! The workflow model that the executor works on: every quirk of the YAML text
//! (scalar coercion, string-or-list fields, the `run`/`uses` split) has been
//! resolved. Maps keep file order.

use crate::strmap::{map_copy, map_entries, StrMap};
use crate::table::lookup;
use crate::tables::{
    copy_jobs, dimension_copy, dimension_list, input_list, job_get, job_list, output_list,
    DimensionMap, InputMap, JobMap, OutputMap,
};
use crate::text::{clone_opt, clone_strings, opt_text, texts, Text};
use vstd::prelude::*;

verus! {

/// A whole workflow file, reduced to what the executor needs. Triggers are not
/// modelled: a local debugger runs jobs directly.
#[derive(Debug)]
pub struct Workflow {
    /// The workflow's `name:`.
    pub name: Option<String>,
    /// The workflow's environment, applied to every step.
    pub env: StrMap,
    /// The workflow's `defaults.run`.
    pub defaults: Defaults,
    /// Jobs by id, in file order.
    pub jobs: JobMap,
}

/// `defaults.run` settings.
#[derive(Debug, Default)]
pub struct Defaults {
    /// The shell of `run:` steps.
    pub shell: Option<String>,
    /// The working directory of `run:` steps.
    pub working_directory: Option<String>,
}

/// A single job.
#[derive(Debug)]
pub struct Job {
    /// The job id.
    pub id: String,
    /// The job's `name:`.
    pub name: Option<String>,
    /// `runs-on` as a list of labels; steps run on the host whatever it says.
    pub runs_on: Vec<String>,
    /// Ids of the jobs that this one needs.
    pub needs: Vec<String>,
    /// The job's environment, layered over the workflow's.
    pub env: StrMap,
    /// The job's `defaults.run`.
    pub defaults: Defaults,
    /// The `if:` condition, as written.
    pub if_cond: Option<String>,
    /// The matrix and how it fails.
    pub strategy: Option<Strategy>,
    /// The job's steps, in order.
    pub steps: Vec<Step>,
}

/// A job's `strategy:`.
#[derive(Debug)]
pub struct Strategy {
    /// The matrix, if there is one.
    pub matrix: Option<Matrix>,
    /// Whether a failure stops the combinations that have not run.
    pub fail_fast: bool,
}

/// A job's `strategy.matrix`.
#[derive(Debug)]
pub struct Matrix {
    /// The dimensions and their values, in file order.
    pub dimensions: DimensionMap,
    /// Combinations to add, or to merge into those that match.
    pub include_entries: Vec<StrMap>,
    /// Combinations to leave out.
    pub exclude: Vec<StrMap>,
}

/// A single step.
#[derive(Debug)]
pub struct Step {
    /// The step's `id:`, by which its outputs are referred to.
    pub id: Option<String>,
    /// The step's `name:`.
    pub name: Option<String>,
    /// The `if:` condition, as written.
    pub if_cond: Option<String>,
    /// The step's environment, layered over the job's.
    pub env: StrMap,
    /// The working directory of this step.
    pub working_directory: Option<String>,
    /// The shell of this step.
    pub shell: Option<String>,
    /// Whether the job goes on when this step fails.
    pub continue_on_error: Conditional,
    /// What the step does.
    pub action: StepAction,
}

/// The two kinds of step body.
#[derive(Debug)]
pub enum StepAction {
    /// A shell command (`run:`).
    Run {
        /// The script.
        script: String,
    },
    /// An action (`uses:`) and its inputs.
    Uses {
        /// The action reference.
        action: String,
        /// Inputs passed via `with:`.
        with: StrMap,
    },
}

/// A literal boolean or an expression that has not been evaluated.
#[derive(Debug)]
pub enum Conditional {
    /// `true` or `false`.
    Bool(bool),
    /// An expression, as written.
    Expr(String),
}

/// An action's metadata.
#[derive(Debug)]
pub struct ActionDef {
    /// The inputs that the action declares, in file order.
    pub inputs: InputMap,
    /// The outputs that the action declares, in file order.
    pub outputs: OutputMap,
    /// How the action runs.
    pub runs: Runs,
}

/// An input that an action declares.
#[derive(Debug, Clone)]
pub struct ActionInput {
    /// The value where none is given.
    pub default: Option<String>,
    /// Whether a value has to be given.
    pub required: bool,
}

/// An output that an action declares.
#[derive(Debug, Clone)]
pub struct ActionOutput {
    /// The expression of its value, for a composite action.
    pub value: Option<String>,
}

/// How an action runs.
#[derive(Debug)]
pub enum Runs {
    /// As steps.
    Composite {
        /// The steps, in order.
        steps: Vec<Step>,
    },
    /// As a JavaScript program.
    Node {
        /// The program's file.
        main: String,
    },
    /// As a container.
    Docker {
        /// The image, or a file that it is built from.
        image: String,
        /// The program to run in place of the image's own.
        entrypoint: Option<String>,
        /// The arguments.
        args: Vec<String>,
        /// The container's own environment.
        env: StrMap,
    },
}

// ---------------------------------------------------------------------------
// Views
// ---------------------------------------------------------------------------

/// [`Defaults`] over views.
#[verifier::ext_equal]
pub struct DefaultsView {
    /// The shell.
    pub shell: Option<Text>,
    /// The working directory.
    pub working_directory: Option<Text>,
}

/// [`Conditional`] over views.
#[verifier::ext_equal]
pub enum ConditionalView {
    /// `true` or `false`.
    Bool(bool),
    /// An expression.
    Expr(Text),
}

/// [`StepAction`] over views.
#[verifier::ext_equal]
pub enum StepActionView {
    /// A script.
    Run(Text),
    /// An action and its inputs.
    Uses(Text, Seq<(Text, Text)>),
}

/// [`Step`] over views.
#[verifier::ext_equal]
pub struct StepView {
    /// The id.
    pub id: Option<Text>,
    /// The name.
    pub name: Option<Text>,
    /// The condition.
    pub if_cond: Option<Text>,
    /// The environment.
    pub env: Seq<(Text, Text)>,
    /// The working directory.
    pub working_directory: Option<Text>,
    /// The shell.
    pub shell: Option<Text>,
    /// Whether the job goes on when the step fails.
    pub continue_on_error: ConditionalView,
    /// What the step does.
    pub action: StepActionView,
}

/// [`Matrix`] over views.
#[verifier::ext_equal]
pub struct MatrixView {
    /// The dimensions and their values.
    pub dimensions: Seq<(Text, Seq<Text>)>,
    /// Combinations to add or merge.
    pub include_entries: Seq<Seq<(Text, Text)>>,
    /// Combinations to leave out.
    pub exclude: Seq<Seq<(Text, Text)>>,
}

/// [`Strategy`] over views.
#[verifier::ext_equal]
pub struct StrategyView {
    /// The matrix.
    pub matrix: Option<MatrixView>,
    /// Whether a failure stops the rest.
    pub fail_fast: bool,
}

/// [`Job`] over views.
#[verifier::ext_equal]
pub struct JobView {
    /// The id.
    pub id: Text,
    /// The name.
    pub name: Option<Text>,
    /// The labels.
    pub runs_on: Seq<Text>,
    /// The jobs needed.
    pub needs: Seq<Text>,
    /// The environment.
    pub env: Seq<(Text, Text)>,
    /// The defaults.
    pub defaults: DefaultsView,
    /// The condition.
    pub if_cond: Option<Text>,
    /// The strategy.
    pub strategy: Option<StrategyView>,
    /// The steps.
    pub steps: Seq<StepView>,
}

/// [`Workflow`] over views.
#[verifier::ext_equal]
pub struct WorkflowView {
    /// The name.
    pub name: Option<Text>,
    /// The environment.
    pub env: Seq<(Text, Text)>,
    /// The defaults.
    pub defaults: DefaultsView,
    /// The jobs by id.
    pub jobs: Seq<(Text, JobView)>,
}

/// [`ActionInput`] over views.
#[verifier::ext_equal]
pub struct InputView {
    /// The value where none is given.
    pub default: Option<Text>,
    /// Whether a value has to be given.
    pub required: bool,
}

/// [`Runs`] over views.
#[verifier::ext_equal]
pub enum RunsView {
    /// As steps.
    Composite(Seq<StepView>),
    /// As a JavaScript program.
    Node(Text),
    /// As a container: image, entry point, arguments, environment.
    Docker(Text, Option<Text>, Seq<Text>, Seq<(Text, Text)>),
}

/// [`ActionDef`] over views.
#[verifier::ext_equal]
pub struct ActionView {
    /// The inputs.
    pub inputs: Seq<(Text, InputView)>,
    /// The outputs and the expressions of their values.
    pub outputs: Seq<(Text, Option<Text>)>,
    /// How the action runs.
    pub runs: RunsView,
}

impl View for Defaults {
    type V = DefaultsView;

    open spec fn view(&self) -> DefaultsView {
        DefaultsView {
            shell: opt_text(self.shell),
            working_directory: opt_text(self.working_directory),
        }
    }
}

impl View for Conditional {
    type V = ConditionalView;

    open spec fn view(&self) -> ConditionalView {
        match *self {
            Conditional::Bool(b) => ConditionalView::Bool(b),
            Conditional::Expr(e) => ConditionalView::Expr(e@),
        }
    }
}

impl View for StepAction {
    type V = StepActionView;

    open spec fn view(&self) -> StepActionView {
        match *self {
            StepAction::Run { script } => StepActionView::Run(script@),
            StepAction::Uses { action, with } => StepActionView::Uses(action@, map_entries(with)),
        }
    }
}

impl View for Step {
    type V = StepView;

    open spec fn view(&self) -> StepView {
        StepView {
            id: opt_text(self.id),
            name: opt_text(self.name),
            if_cond: opt_text(self.if_cond),
            env: map_entries(self.env),
            working_directory: opt_text(self.working_directory),
            shell: opt_text(self.shell),
            continue_on_error: self.continue_on_error@,
            action: self.action@,
        }
    }
}

/// Steps over views.
pub open spec fn step_views(v: Seq<Step>) -> Seq<StepView> {
    v.map_values(|s: Step| s@)
}

/// Maps over views.
pub open spec fn map_list(v: Seq<StrMap>) -> Seq<Seq<(Text, Text)>> {
    v.map_values(|m: StrMap| map_entries(m))
}

impl View for Matrix {
    type V = MatrixView;

    open spec fn view(&self) -> MatrixView {
        MatrixView {
            dimensions: dimension_list(self.dimensions),
            include_entries: map_list(self.include_entries@),
            exclude: map_list(self.exclude@),
        }
    }
}

/// An optional matrix over views.
pub open spec fn opt_matrix(m: Option<Matrix>) -> Option<MatrixView> {
    match m {
        Some(x) => Some(x@),
        None => None,
    }
}

impl View for Strategy {
    type V = StrategyView;

    open spec fn view(&self) -> StrategyView {
        StrategyView { matrix: opt_matrix(self.matrix), fail_fast: self.fail_fast }
    }
}

/// An optional strategy over views.
pub open spec fn opt_strategy(s: Option<Strategy>) -> Option<StrategyView> {
    match s {
        Some(x) => Some(x@),
        None => None,
    }
}

impl View for Job {
    type V = JobView;

    open spec fn view(&self) -> JobView {
        JobView {
            id: self.id@,
            name: opt_text(self.name),
            runs_on: texts(self.runs_on@),
            needs: texts(self.needs@),
            env: map_entries(self.env),
            defaults: self.defaults@,
            if_cond: opt_text(self.if_cond),
            strategy: opt_strategy(self.strategy),
            steps: step_views(self.steps@),
        }
    }
}

impl View for Workflow {
    type V = WorkflowView;

    open spec fn view(&self) -> WorkflowView {
        WorkflowView {
            name: opt_text(self.name),
            env: map_entries(self.env),
            defaults: self.defaults@,
            jobs: job_list(self.jobs),
        }
    }
}

impl View for ActionInput {
    type V = InputView;

    open spec fn view(&self) -> InputView {
        InputView { default: opt_text(self.default), required: self.required }
    }
}

impl View for Runs {
    type V = RunsView;

    open spec fn view(&self) -> RunsView {
        match *self {
            Runs::Composite { steps } => RunsView::Composite(step_views(steps@)),
            Runs::Node { main } => RunsView::Node(main@),
            Runs::Docker { image, entrypoint, args, env } => RunsView::Docker(
                image@,
                opt_text(entrypoint),
                texts(args@),
                map_entries(env),
            ),
        }
    }
}

impl View for ActionDef {
    type V = ActionView;

    open spec fn view(&self) -> ActionView {
        ActionView {
            inputs: input_list(self.inputs),
            outputs: output_list(self.outputs),
            runs: self.runs@,
        }
    }
}

impl Workflow {
    /// The job with an id.
    pub fn job(&self, id: &str) -> (r: Option<&Job>)
        ensures
            (match r {
                Some(j) => Some(j@),
                None => None,
            }) == lookup(self@.jobs, id@),
    {
        job_get(&self.jobs, id)
    }
}

// ---------------------------------------------------------------------------
// Copies
// ---------------------------------------------------------------------------

impl Clone for Conditional {
    fn clone(&self) -> (r: Conditional)
        ensures
            r@ == self@,
    {
        match self {
            Conditional::Bool(b) => Conditional::Bool(*b),
            Conditional::Expr(e) => Conditional::Expr(e.clone()),
        }
    }
}

impl Clone for Defaults {
    fn clone(&self) -> (r: Defaults)
        ensures
            r@ == self@,
    {
        Defaults {
            shell: clone_opt(&self.shell),
            working_directory: clone_opt(&self.working_directory),
        }
    }
}

impl Clone for StepAction {
    fn clone(&self) -> (r: StepAction)
        ensures
            r@ == self@,
    {
        match self {
            StepAction::Run { script } => StepAction::Run { script: script.clone() },
            StepAction::Uses { action, with } => StepAction::Uses {
                action: action.clone(),
                with: map_copy(with),
            },
        }
    }
}

impl Clone for Step {
    fn clone(&self) -> (r: Step)
        ensures
            r@ == self@,
    {
        Step {
            id: clone_opt(&self.id),
            name: clone_opt(&self.name),
            if_cond: clone_opt(&self.if_cond),
            env: map_copy(&self.env),
            working_directory: clone_opt(&self.working_directory),
            shell: clone_opt(&self.shell),
            continue_on_error: self.continue_on_error.clone(),
            action: self.action.clone(),
        }
    }
}

/// A copy of steps.
pub fn copy_steps(v: &Vec<Step>) -> (r: Vec<Step>)
    ensures
        step_views(r@) == step_views(v@),
{
    let ghost all = step_views(v@);
    let mut out: Vec<Step> = Vec::new();
    let mut i: usize = 0;
    assert(step_views(out@) =~= all.take(0));
    while i < v.len()
        invariant
            i <= v@.len(),
            all == step_views(v@),
            step_views(out@) == all.take(i as int),
        decreases v@.len() - i,
    {
        let ghost done = step_views(out@);
        let s = v[i].clone();
        let ghost sv = s@;
        assert(sv == all[i as int]);
        out.push(s);
        assert(step_views(out@) =~= done.push(sv));
        assert(step_views(out@) =~= all.take(i + 1));
        i += 1;
    }
    assert(all.take(v@.len() as int) =~= all);
    out
}

/// A copy of a list of maps.
fn copy_maps(v: &Vec<StrMap>) -> (r: Vec<StrMap>)
    ensures
        map_list(r@) == map_list(v@),
{
    let ghost all = map_list(v@);
    let mut out: Vec<StrMap> = Vec::new();
    let mut i: usize = 0;
    assert(map_list(out@) =~= all.take(0));
    while i < v.len()
        invariant
            i <= v@.len(),
            all == map_list(v@),
            map_list(out@) == all.take(i as int),
        decreases v@.len() - i,
    {
        let ghost done = map_list(out@);
        let m = map_copy(&v[i]);
        let ghost mv = map_entries(m);
        assert(mv == all[i as int]);
        out.push(m);
        assert(map_list(out@) =~= done.push(mv));
        assert(map_list(out@) =~= all.take(i + 1));
        i += 1;
    }
    assert(all.take(v@.len() as int) =~= all);
    out
}

impl Clone for Matrix {
    fn clone(&self) -> (r: Matrix)
        ensures
            r@ == self@,
    {
        Matrix {
            dimensions: dimension_copy(&self.dimensions),
            include_entries: copy_maps(&self.include_entries),
            exclude: copy_maps(&self.exclude),
        }
    }
}

impl Clone for Strategy {
    fn clone(&self) -> (r: Strategy)
        ensures
            r@ == self@,
    {
        let matrix = match &self.matrix {
            Some(m) => Some(m.clone()),
            None => None,
        };
        Strategy { matrix, fail_fast: self.fail_fast }
    }
}

impl Clone for Job {
    fn clone(&self) -> (r: Job)
        ensures
            r@ == self@,
    {
        let strategy = match &self.strategy {
            Some(s) => Some(s.clone()),
            None => None,
        };
        Job {
            id: self.id.clone(),
            name: clone_opt(&self.name),
            runs_on: clone_strings(&self.runs_on),
            needs: clone_strings(&self.needs),
            env: map_copy(&self.env),
            defaults: self.defaults.clone(),
            if_cond: clone_opt(&self.if_cond),
            strategy,
            steps: copy_steps(&self.steps),
        }
    }
}

impl Clone for Workflow {
    fn clone(&self) -> (r: Workflow)
        ensures
            r@ == self@,
    {
        Workflow {
            name: clone_opt(&self.name),
            env: map_copy(&self.env),
            defaults: self.defaults.clone(),
            jobs: copy_jobs(&self.jobs),
        }
    }
}

} // verus!
