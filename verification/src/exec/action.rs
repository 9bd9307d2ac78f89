//! Actions: what a `uses:` refers to, the inputs that it sees, and how composite,
//! JavaScript and Docker actions run.

pub mod laws;

use crate::envfile::{key_values, parse_key_values, EnvFileError, EnvFileFault};
use crate::exec::context::{
    add_var, make_context_with_inputs, plain_context, str_object, str_value,
    with_var, Surroundings, SurroundingsView,
};
use crate::exec::shell::{
    apply_common_env, common_env, dir_under, github_vars, put_channels, put_github,
    resolve_cwd_in, with_channels, Channels, ChannelsView,
};
use crate::exec::step::{
    exit_note, exit_text, got_bool, got_env, handed_back, judge, judged, label_of, overlaid,
    overlay_env, read_channels, record_step, runs, status_after, step_label, step_runs, with_step,
    StepIo, StepIoView, Verdict,
};
use crate::expr::error::{ExprError, Fault};
use crate::expr::eval::{Context, ContextView, JobStatus};
use crate::expr::{interpolate, interpolated};
use crate::fetch::{parse_remote, remote, RemoteRef, RemoteView};
use crate::members::Members;
use crate::model::{
    step_views, ActionDef, ActionInput, ActionView, InputView, Runs, RunsView, Step,
    StepAction, StepActionView, StepView,
};
use crate::numeral::{text_result, Need, NeedView, Numerals, NumeralsView};
use crate::numtext::{decimal, nat_text, usize_text};
use crate::paths::{join_path, path_join};
use crate::results::{after_done, ahead};
use crate::scan::{lines_of, replace, replaced};
use crate::strmap::{
    map_copy, map_entries, map_entry, map_get, map_len, map_new, map_put, put_entries, StrMap,
};
use crate::table::{collected, lookup, put, put_all};
use crate::tables::{input_at, input_len, input_new, output_at, output_len, output_new};
use crate::text::{
    after_prefix, begins, concat2, concat3, concat5, opt_text, pairs, starts_with, strip_prefix,
    texts, to_upper, uppered, Text,
};
use crate::value::ValueView;
use std::collections::hash_map::DefaultHasher;
use std::hash::{BuildHasher, BuildHasherDefault};
use std::path::Path;
use vstd::prelude::*;

verus! {

// ---------------------------------------------------------------------------
// References
// ---------------------------------------------------------------------------

/// What a `uses:` refers to.
#[derive(Debug)]
pub enum Target {
    /// An image that runs as it is.
    Image(ActionDef),
    /// A directory of the workspace.
    Dir(String),
    /// A repository.
    Remote(RemoteRef),
    /// Something that cannot run, and why.
    Unsupported(String),
}

/// [`Target`] over views.
pub enum TargetView {
    /// An image.
    Image(ActionView),
    /// A directory.
    Dir(Text),
    /// A repository.
    Remote(RemoteView),
    /// Something that cannot run.
    Unsupported(Text),
}

impl View for Target {
    type V = TargetView;

    open spec fn view(&self) -> TargetView {
        match *self {
            Target::Image(d) => TargetView::Image(d@),
            Target::Dir(d) => TargetView::Dir(d@),
            Target::Remote(r) => TargetView::Remote(r@),
            Target::Unsupported(t) => TargetView::Unsupported(t@),
        }
    }
}

/// An action that is nothing but an image.
pub open spec fn image_only(image: Text) -> ActionView {
    ActionView {
        inputs: Seq::empty(),
        outputs: Seq::empty(),
        runs: RunsView::Docker(image, None, Seq::empty(), Seq::empty()),
    }
}

/// What a `uses:` refers to: `docker://` an image, `./` and `../` a directory of
/// the workspace, and else a repository.
pub open spec fn referred(reference: Text, workspace: Text) -> TargetView {
    match after_prefix(reference, "docker://"@) {
        Some(image) => TargetView::Image(image_only(image)),
        None => if begins(reference, "./"@) || begins(reference, "../"@) {
            TargetView::Dir(path_join(workspace, reference))
        } else {
            match remote(reference) {
                Some(r) => TargetView::Remote(r),
                None => TargetView::Unsupported(
                    "unrecognized `uses:` reference `"@ + reference + "`"@,
                ),
            }
        },
    }
}

/// Find out what a `uses:` refers to.
pub fn resolve_action(reference: &str, workspace: &str) -> (r: Target)
    ensures
        r@ == referred(reference@, workspace@),
{
    match strip_prefix(reference, "docker://") {
        Some(image) => {
            let args: Vec<String> = Vec::new();
            let d = ActionDef {
                inputs: input_new(),
                outputs: output_new(),
                runs: Runs::Docker { image, entrypoint: None, args, env: map_new() },
            };
            assert(texts(args@) =~= Seq::empty());
            return Target::Image(d);
        },
        None => {},
    }
    if starts_with(reference, "./") || starts_with(reference, "../") {
        return Target::Dir(join_path(workspace, reference));
    }
    match parse_remote(reference) {
        Some(r) => Target::Remote(r),
        None => Target::Unsupported(
            concat3("unrecognized `uses:` reference `", reference, "`"),
        ),
    }
}

/// The file that describes an action, of the two that can, given which of them
/// are there.
pub open spec fn metadata_file(dir: Text, yml: bool, yaml: bool) -> Result<Text, Text> {
    if yml {
        Ok(path_join(dir, "action.yml"@))
    } else if yaml {
        Ok(path_join(dir, "action.yaml"@))
    } else {
        Err("no action.yml/action.yaml in `"@ + dir + "`"@)
    }
}

/// The file that describes an action, given which of the two are there.
pub fn action_file(dir: &str, yml: bool, yaml: bool) -> (r: Result<String, String>)
    ensures
        (match r {
            Ok(p) => Ok(p@),
            Err(e) => Err(e@),
        }) == metadata_file(dir@, yml, yaml),
{
    if yml {
        Ok(join_path(dir, "action.yml"))
    } else if yaml {
        Ok(join_path(dir, "action.yaml"))
    } else {
        Err(concat3("no action.yml/action.yaml in `", dir, "`"))
    }
}

/// The line that says why an action was passed over.
pub fn unsupported_line(number: usize, reason: &str) -> (r: String)
    ensures
        r@ == "  ⤼ step "@ + decimal(number as nat) + " skipped ("@ + reason@ + ")"@,
{
    concat5("  ⤼ step ", usize_text(number).as_str(), " skipped (", reason, ")")
}

/// The name of a kind of action.
pub open spec fn kind_name(r: RunsView) -> Text {
    match r {
        RunsView::Composite(_) => "composite"@,
        RunsView::Node(_) => "javascript"@,
        RunsView::Docker(_, _, _, _) => "docker"@,
    }
}

/// The line that opens an action.
pub fn opening_line(r: &Runs, reference: &str) -> (l: String)
    ensures
        l@ == "  ┌ "@ + kind_name(r@) + " action `"@ + reference@ + "`"@,
{
    let kind = match r {
        Runs::Composite { .. } => "composite",
        Runs::Node { .. } => "javascript",
        Runs::Docker { .. } => "docker",
    };
    concat5("  ┌ ", kind, " action `", reference, "`")
}

// ---------------------------------------------------------------------------
// Inputs
// ---------------------------------------------------------------------------

/// Why an action's inputs cannot be had.
#[derive(Debug)]
pub enum InputError {
    /// An expression has no value.
    Expr(ExprError),
    /// An input that is required was not given.
    Required(String),
}

/// [`InputError`] over views.
#[verifier::ext_equal]
pub enum InputFault {
    /// An expression has no value.
    Expr(Fault),
    /// An input that is required was not given.
    Required(Text),
}

impl View for InputError {
    type V = InputFault;

    open spec fn view(&self) -> InputFault {
        match *self {
            InputError::Expr(e) => InputFault::Expr(e@),
            InputError::Required(n) => InputFault::Required(n@),
        }
    }
}

/// The message of an error, or the conversion that is missing for it.
pub open spec fn input_message(f: InputFault, n: NumeralsView) -> Result<Text, NeedView> {
    match f {
        InputFault::Expr(e) => crate::expr::error::fault_message(e, n),
        InputFault::Required(name) => Ok(
            "action input `"@ + name + "` is required but was not provided"@,
        ),
    }
}

impl InputError {
    /// The message of the error.
    pub fn message(&self, n: &Numerals) -> (r: Result<String, Need>)
        ensures
            text_result(r) == input_message(self@, n@),
    {
        match self {
            InputError::Expr(e) => e.message(n),
            InputError::Required(name) => Ok(
                concat3("action input `", name.as_str(), "` is required but was not provided"),
            ),
        }
    }
}

/// A template as an input.
pub open spec fn input_text(raw: Text, c: ContextView) -> Result<Text, InputFault> {
    match interpolated(raw, c) {
        Ok(t) => Ok(t),
        Err(f) => Err(InputFault::Expr(f)),
    }
}

/// The value of a declared input: what is given for it, or its default, which can
/// refer to the inputs before it, or nothing where it is not required.
pub open spec fn declared_value(
    name: Text,
    input: InputView,
    with: Seq<(Text, Text)>,
    before: Seq<(Text, Text)>,
    c: ContextView,
) -> Result<Text, InputFault> {
    match lookup(with, name) {
        Some(raw) => input_text(raw, c),
        None => match input.default {
            Some(d) => input_text(d, with_var(c, "inputs"@, str_value(before))),
            None => if input.required {
                Err(InputFault::Required(name))
            } else {
                Ok(Seq::empty())
            },
        },
    }
}

/// The declared inputs in turn.
pub open spec fn declared(
    inputs: Seq<(Text, InputView)>,
    with: Seq<(Text, Text)>,
    c: ContextView,
) -> Result<Seq<(Text, Text)>, InputFault>
    decreases inputs.len(),
{
    if inputs.len() == 0 {
        Ok(Seq::empty())
    } else {
        match declared(inputs.drop_last(), with, c) {
            Err(f) => Err(f),
            Ok(m) => match declared_value(inputs.last().0, inputs.last().1, with, m, c) {
                Err(f) => Err(f),
                Ok(t) => Ok(put(m, inputs.last().0, t)),
            },
        }
    }
}

/// Inputs with what is given and not declared.
pub open spec fn passed_through(
    m: Seq<(Text, Text)>,
    with: Seq<(Text, Text)>,
    c: ContextView,
) -> Result<Seq<(Text, Text)>, InputFault>
    decreases with.len(),
{
    if with.len() == 0 {
        Ok(m)
    } else {
        match passed_through(m, with.drop_last(), c) {
            Err(f) => Err(f),
            Ok(n) => if lookup(n, with.last().0) is Some {
                Ok(n)
            } else {
                match input_text(with.last().1, c) {
                    Err(f) => Err(f),
                    Ok(t) => Ok(put(n, with.last().0, t)),
                }
            },
        }
    }
}

/// The inputs that an action sees.
pub open spec fn inputs_of(def: ActionView, with: Seq<(Text, Text)>, c: ContextView) -> Result<
    Seq<(Text, Text)>,
    InputFault,
> {
    match declared(def.inputs, with, c) {
        Err(f) => Err(f),
        Ok(m) => passed_through(m, with, c),
    }
}

/// An error stays, whatever follows.
proof fn lemma_declared_error(
    inputs: Seq<(Text, InputView)>,
    with: Seq<(Text, Text)>,
    c: ContextView,
    i: int,
)
    requires
        0 <= i <= inputs.len(),
        declared(inputs.take(i), with, c) is Err,
    ensures
        declared(inputs, with, c) == declared(inputs.take(i), with, c),
    decreases inputs.len(),
{
    if i == inputs.len() {
        assert(inputs.take(i) =~= inputs);
    } else {
        assert(inputs.drop_last().take(i) =~= inputs.take(i));
        lemma_declared_error(inputs.drop_last(), with, c, i);
    }
}

/// An error stays, whatever follows.
proof fn lemma_passed_error(
    m: Seq<(Text, Text)>,
    with: Seq<(Text, Text)>,
    c: ContextView,
    i: int,
)
    requires
        0 <= i <= with.len(),
        passed_through(m, with.take(i), c) is Err,
    ensures
        passed_through(m, with, c) == passed_through(m, with.take(i), c),
    decreases with.len(),
{
    if i == with.len() {
        assert(with.take(i) =~= with);
    } else {
        assert(with.drop_last().take(i) =~= with.take(i));
        lemma_passed_error(m, with.drop_last(), c, i);
    }
}

/// A text or why there is none, over views.
pub open spec fn got_input(r: Result<String, InputError>) -> Result<Text, InputFault> {
    match r {
        Ok(t) => Ok(t@),
        Err(e) => Err(e@),
    }
}

/// Inputs or why there are none, over views.
pub open spec fn got_inputs(r: Result<StrMap, InputError>) -> Result<Seq<(Text, Text)>, InputFault> {
    match r {
        Ok(m) => Ok(map_entries(m)),
        Err(e) => Err(e@),
    }
}

/// Fill in a template as an input.
fn fill_input(raw: &str, c: &Context) -> (r: Result<String, InputError>)
    ensures
        got_input(r) == input_text(raw@, c@),
{
    match interpolate(raw, c) {
        Ok(t) => Ok(t),
        Err(e) => Err(InputError::Expr(e)),
    }
}

/// The value of a declared input.
fn input_value(
    name: &str,
    input: &ActionInput,
    with: &StrMap,
    before: &StrMap,
    c: &Context,
) -> (r: Result<String, InputError>)
    ensures
        got_input(r) == declared_value(
            name@,
            input@,
            map_entries(*with),
            map_entries(*before),
            c@,
        ),
{
    match map_get(with, name) {
        Some(raw) => fill_input(raw.as_str(), c),
        None => match &input.default {
            Some(d) => {
                let dc = add_var(c.clone(), "inputs", str_object(before));
                fill_input(d.as_str(), &dc)
            },
            None => if input.required {
                Err(InputError::Required(name.to_owned()))
            } else {
                let e = String::new();
                assert(e@ =~= Seq::empty());
                Ok(e)
            },
        },
    }
}

/// The inputs that an action sees: each declared input takes what is given for
/// it, or else its default; what is given and not declared is passed through.
pub fn resolve_inputs(def: &ActionDef, with: &StrMap, c: &Context) -> (r: Result<
    StrMap,
    InputError,
>)
    ensures
        got_inputs(r) == inputs_of(def@, map_entries(*with), c@),
{
    let ghost all = def@.inputs;
    let ghost given = map_entries(*with);
    let mut m = map_new();
    let mut i: usize = 0;
    assert(all.take(0) =~= Seq::empty());
    let total = input_len(&def.inputs);
    while i < total
        invariant
            i <= total,
            total == all.len(),
            all == def@.inputs,
            given == map_entries(*with),
            declared(all.take(i as int), given, c@) == Ok::<Seq<(Text, Text)>, InputFault>(
                map_entries(m),
            ),
        decreases total - i,
    {
        let (name, input) = input_at(&def.inputs, i);
        assert(all.take(i + 1).drop_last() =~= all.take(i as int));
        assert(all.take(i + 1).last() == (name@, input@));
        match input_value(name.as_str(), input, with, &m, c) {
            Ok(t) => map_put(&mut m, name.clone(), t),
            Err(e) => {
                proof {
                    lemma_declared_error(all, given, c@, i + 1);
                }
                return Err(e);
            },
        }
        i += 1;
    }
    assert(all.take(total as int) =~= all);
    let ghost start = map_entries(m);
    let n = map_len(with);
    let mut k: usize = 0;
    assert(given.take(0) =~= Seq::empty());
    while k < n
        invariant
            k <= n,
            n == given.len(),
            given == map_entries(*with),
            declared(def@.inputs, given, c@) == Ok::<Seq<(Text, Text)>, InputFault>(start),
            passed_through(start, given.take(k as int), c@) == Ok::<Seq<(Text, Text)>, InputFault>(
                map_entries(m),
            ),
        decreases n - k,
    {
        let (name, raw) = map_entry(with, k);
        assert(given.take(k + 1).drop_last() =~= given.take(k as int));
        assert(given.take(k + 1).last() == (name@, raw@));
        if map_get(&m, name.as_str()).is_none() {
            match fill_input(raw.as_str(), c) {
                Ok(t) => map_put(&mut m, name, t),
                Err(e) => {
                    proof {
                        lemma_passed_error(start, given, c@, k + 1);
                    }
                    return Err(e);
                },
            }
        }
        k += 1;
    }
    assert(given.take(n as int) =~= given);
    Ok(m)
}

/// The variable of an input: its name in upper case, with `_` for spaces.
pub open spec fn input_var(name: Text) -> Text {
    "INPUT_"@ + replaced(uppered(name), " "@, "_"@)
}

/// The variables of inputs.
pub open spec fn input_vars(inputs: Seq<(Text, Text)>) -> Seq<(Text, Text)> {
    collected(inputs.map_values(|e: (Text, Text)| (input_var(e.0), e.1)))
}

/// The `INPUT_<NAME>` variables that an action sees.
pub fn input_env_vars(inputs: &StrMap) -> (r: StrMap)
    ensures
        map_entries(r) == input_vars(map_entries(*inputs)),
{
    let ghost all = map_entries(*inputs).map_values(|e: (Text, Text)| (input_var(e.0), e.1));
    let n = map_len(inputs);
    let mut m = map_new();
    let mut i: usize = 0;
    assert(all.take(0) =~= Seq::empty());
    while i < n
        invariant
            i <= n,
            n == all.len(),
            n == map_entries(*inputs).len(),
            all == map_entries(*inputs).map_values(|e: (Text, Text)| (input_var(e.0), e.1)),
            map_entries(m) == collected(all.take(i as int)),
        decreases n - i,
    {
        let (k, v) = map_entry(inputs, i);
        proof {
            reveal_strlit(" ");
        }
        let up = to_upper(k.as_str());
        let name = concat2("INPUT_", replace(up.as_str(), " ", "_").as_str());
        assert(all.take(i + 1).drop_last() =~= all.take(i as int));
        assert(all.take(i + 1).last() == (name@, v@));
        map_put(&mut m, name, v);
        i += 1;
    }
    assert(all.take(n as int) =~= all);
    m
}

// ---------------------------------------------------------------------------
// Composite actions
// ---------------------------------------------------------------------------

/// What a composite action has come to as its steps run.
#[derive(Debug)]
pub struct Composite {
    /// Its own `steps` context.
    pub steps: Members,
    /// Its status so far.
    pub status: JobStatus,
}

/// [`Composite`] over views.
#[verifier::ext_equal]
pub struct CompositeView {
    /// Its own `steps` context.
    pub steps: Seq<(Text, ValueView)>,
    /// Its status so far.
    pub status: JobStatus,
}

impl View for Composite {
    type V = CompositeView;

    open spec fn view(&self) -> CompositeView {
        CompositeView { steps: self.steps@, status: self.status }
    }
}

/// What an expression in a composite action can read.
pub open spec fn composite_context(
    comp: CompositeView,
    env: Seq<(Text, Text)>,
    inputs: Seq<(Text, Text)>,
    s: SurroundingsView,
) -> ContextView {
    plain_context(env, s, comp.steps, inputs, comp.status)
}

/// What is to be done for a step of a composite action.
#[derive(Debug)]
pub enum CompositePlan {
    /// Nothing, since it is an action itself.
    Nested(String),
    /// Run a script.
    Run {
        /// The script.
        script: String,
        /// The shell.
        shell: String,
        /// The directory.
        cwd: String,
        /// The environment.
        env: StrMap,
    },
}

/// [`CompositePlan`] over views.
#[verifier::ext_equal]
pub enum CompositePlanView {
    /// Nothing, since it is an action itself.
    Nested(Text),
    /// A script, its shell, its directory and its environment.
    Run(Text, Text, Text, Seq<(Text, Text)>),
}

impl View for CompositePlan {
    type V = CompositePlanView;

    open spec fn view(&self) -> CompositePlanView {
        match *self {
            CompositePlan::Nested(a) => CompositePlanView::Nested(a@),
            CompositePlan::Run { script, shell, cwd, env } => CompositePlanView::Run(
                script@,
                shell@,
                cwd@,
                map_entries(env),
            ),
        }
    }
}

/// The shell of a composite action's step.
pub open spec fn composite_shell(step: StepView) -> Text {
    match step.shell {
        Some(s) => s,
        None => "bash"@,
    }
}

/// What is to be done for a step of a composite action that runs: its
/// environment is the job's, with the inputs and then its own over it.
pub open spec fn composite_planned(
    step: StepView,
    env: Seq<(Text, Text)>,
    inputs: Seq<(Text, Text)>,
    c: ContextView,
    workspace: Text,
) -> Result<CompositePlanView, Fault> {
    match step.action {
        StepActionView::Uses(action, _) => Ok(CompositePlanView::Nested(action)),
        StepActionView::Run(script) => match interpolated(script, c) {
            Err(f) => Err(f),
            Ok(t) => match overlaid(put_all(env, input_vars(inputs)), step.env, c) {
                Err(f) => Err(f),
                Ok(e) => Ok(
                    CompositePlanView::Run(
                        t,
                        composite_shell(step),
                        dir_under(workspace, step.working_directory),
                        e,
                    ),
                ),
            },
        },
    }
}

/// The line that says how a step of a composite action ended.
pub open spec fn composite_line(v: Verdict, exit: Option<i32>) -> Text {
    match v {
        Verdict::Forgiven => "  │   ⚠ failed"@ + exit_text(exit) + " — continue-on-error"@,
        Verdict::Failed => "  │   ✗ failed"@ + exit_text(exit),
        _ => "  │   ✓"@,
    }
}

/// A composite action after a step that has run, and the line to print.
pub open spec fn composite_finished(
    comp: CompositeView,
    step: StepView,
    c: ContextView,
    ok: bool,
    exit: Option<i32>,
    outputs: Seq<(Text, Text)>,
) -> Result<(CompositeView, Text), Fault> {
    match judged(step, ok, c) {
        Err(f) => Err(f),
        Ok(v) => Ok(
            (
                CompositeView {
                    steps: with_step(comp.steps, step.id, v, outputs),
                    status: status_after(comp.status, v),
                },
                composite_line(v, exit),
            ),
        ),
    }
}

/// The outputs of a composite action: each that has an expression.
pub open spec fn composite_outputs(outputs: Seq<(Text, Option<Text>)>, c: ContextView) -> Result<
    Seq<(Text, Text)>,
    Fault,
>
    decreases outputs.len(),
{
    if outputs.len() == 0 {
        Ok(Seq::empty())
    } else {
        match composite_outputs(outputs.drop_last(), c) {
            Err(f) => Err(f),
            Ok(m) => match outputs.last().1 {
                None => Ok(m),
                Some(e) => match interpolated(e, c) {
                    Err(f) => Err(f),
                    Ok(t) => Ok(put(m, outputs.last().0, t)),
                },
            },
        }
    }
}

/// An error stays, whatever follows.
proof fn lemma_outputs_error(outputs: Seq<(Text, Option<Text>)>, c: ContextView, i: int)
    requires
        0 <= i <= outputs.len(),
        composite_outputs(outputs.take(i), c) is Err,
    ensures
        composite_outputs(outputs, c) == composite_outputs(outputs.take(i), c),
    decreases outputs.len(),
{
    if i == outputs.len() {
        assert(outputs.take(i) =~= outputs);
    } else {
        assert(outputs.drop_last().take(i) =~= outputs.take(i));
        lemma_outputs_error(outputs.drop_last(), c, i);
    }
}

impl Composite {
    /// A composite action before its first step.
    pub fn new() -> (r: Composite)
        ensures
            r@.steps == Seq::<(Text, ValueView)>::empty(),
            r@.status == JobStatus::Success,
    {
        Composite { steps: Members::new(), status: JobStatus::Success }
    }

    /// What an expression in the action can read.
    pub fn context(&self, env: &StrMap, inputs: &StrMap, s: &Surroundings) -> (r: Context)
        ensures
            r@ == composite_context(self@, map_entries(*env), map_entries(*inputs), s@),
    {
        make_context_with_inputs(env, s, &self.steps, inputs, self.status)
    }

    /// Whether a step runs, given the job's environment.
    pub fn step_runs(&self, step: &Step, env: &StrMap, inputs: &StrMap, s: &Surroundings) -> (r:
        Result<bool, ExprError>)
        ensures
            got_bool(r) == runs(
                step@.if_cond,
                composite_context(self@, map_entries(*env), map_entries(*inputs), s@),
            ),
    {
        step_runs(step, &self.context(env, inputs, s))
    }

    /// Decide what is to be done for a step that runs.
    pub fn plan(
        &self,
        step: &Step,
        env: &StrMap,
        inputs: &StrMap,
        s: &Surroundings,
        workspace: &str,
    ) -> (r: Result<CompositePlan, ExprError>)
        ensures
            (match r {
                Ok(p) => Ok(p@),
                Err(e) => Err(e@),
            }) == composite_planned(
                step@,
                map_entries(*env),
                map_entries(*inputs),
                composite_context(self@, map_entries(*env), map_entries(*inputs), s@),
                workspace@,
            ),
    {
        let c = self.context(env, inputs, s);
        match &step.action {
            StepAction::Uses { action, .. } => Ok(CompositePlan::Nested(action.clone())),
            StepAction::Run { script } => {
                let t = match interpolate(script.as_str(), &c) {
                    Ok(t) => t,
                    Err(e) => {
                        return Err(e);
                    },
                };
                let shell = match &step.shell {
                    Some(x) => x.clone(),
                    None => "bash".to_owned(),
                };
                let mut base = map_copy(env);
                put_entries(&mut base, &input_env_vars(inputs));
                match overlay_env(base, &step.env, &c) {
                    Err(e) => Err(e),
                    Ok(m) => Ok(
                        CompositePlan::Run {
                            script: t,
                            shell,
                            cwd: resolve_cwd_in(step, workspace),
                            env: m,
                        },
                    ),
                }
            },
        }
    }

    /// Keep that a step did not run.
    pub fn skip(&mut self, step: &Step)
        ensures
            final(self)@ == (CompositeView {
                steps: with_step(old(self)@.steps, step@.id, Verdict::Skipped, Seq::empty()),
                status: old(self)@.status,
            }),
    {
        let none: Vec<(String, String)> = Vec::new();
        assert(pairs(none@) =~= Seq::empty());
        record_step(&mut self.steps, step, Verdict::Skipped, &none);
    }

    /// Bring the action up to date after a step that has run, and return the line
    /// to print. The environment is the job's, as it was before the step.
    pub fn finish(
        &mut self,
        step: &Step,
        env: &StrMap,
        inputs: &StrMap,
        s: &Surroundings,
        ok: bool,
        exit: Option<i32>,
        outputs: &Vec<(String, String)>,
    ) -> (r: Result<String, ExprError>)
        ensures
            match r {
                Ok(line) => composite_finished(
                    old(self)@,
                    step@,
                    composite_context(old(self)@, map_entries(*env), map_entries(*inputs), s@),
                    ok,
                    exit,
                    pairs(outputs@),
                ) == Ok::<(CompositeView, Text), Fault>((final(self)@, line@)),
                Err(e) => final(self)@ == old(self)@ && composite_finished(
                    old(self)@,
                    step@,
                    composite_context(old(self)@, map_entries(*env), map_entries(*inputs), s@),
                    ok,
                    exit,
                    pairs(outputs@),
                ) == Err::<(CompositeView, Text), Fault>(e@),
            },
    {
        let c = self.context(env, inputs, s);
        match judge(step, ok, &c) {
            Err(e) => Err(e),
            Ok(v) => {
                record_step(&mut self.steps, step, v, outputs);
                if v == Verdict::Failed {
                    self.status = JobStatus::Failure;
                }
                Ok(
                    match v {
                        Verdict::Forgiven => concat3(
                            "  │   ⚠ failed",
                            exit_note(exit).as_str(),
                            " — continue-on-error",
                        ),
                        Verdict::Failed => concat2(
                            "  │   ✗ failed",
                            exit_note(exit).as_str(),
                        ),
                        _ => "  │   ✓".to_owned(),
                    },
                )
            },
        }
    }

    /// The action's outputs when all its steps have run.
    pub fn outputs(&self, def: &ActionDef, env: &StrMap, inputs: &StrMap, s: &Surroundings) -> (r:
        Result<StrMap, ExprError>)
        ensures
            got_env(r) == composite_outputs(
                def@.outputs,
                composite_context(self@, map_entries(*env), map_entries(*inputs), s@),
            ),
    {
        let c = self.context(env, inputs, s);
        let ghost all = def@.outputs;
        let mut m = map_new();
        let mut i: usize = 0;
        assert(all.take(0) =~= Seq::empty());
        let total = output_len(&def.outputs);
        while i < total
            invariant
                i <= total,
                total == all.len(),
                all == def@.outputs,
                c@ == composite_context(self@, map_entries(*env), map_entries(*inputs), s@),
                composite_outputs(all.take(i as int), c@) == Ok::<Seq<(Text, Text)>, Fault>(
                    map_entries(m),
                ),
            decreases total - i,
        {
            let (name, output) = output_at(&def.outputs, i);
            assert(all.take(i + 1).drop_last() =~= all.take(i as int));
            assert(all.take(i + 1).last() == (name@, opt_text(output.value)));
            match &output.value {
                None => {},
                Some(e) => match interpolate(e.as_str(), &c) {
                    Ok(t) => map_put(&mut m, name.clone(), t),
                    Err(e) => {
                        proof {
                            lemma_outputs_error(all, c@, i + 1);
                        }
                        return Err(e);
                    },
                },
            }
            i += 1;
        }
        assert(all.take(total as int) =~= all);
        Ok(m)
    }
}

/// A composite action that is running.
#[derive(Debug)]
pub struct CompositeRun {
    /// What its steps have come to.
    pub comp: Composite,
    /// How many steps have ended.
    pub next: usize,
    /// Whether the step at hand runs.
    pub runs: Option<bool>,
}

/// [`CompositeRun`] over views.
#[verifier::ext_equal]
pub struct CompositeRunView {
    /// What its steps have come to.
    pub comp: CompositeView,
    /// How many steps have ended.
    pub next: nat,
    /// Whether the step at hand runs.
    pub runs: Option<bool>,
}

impl View for CompositeRun {
    type V = CompositeRunView;

    open spec fn view(&self) -> CompositeRunView {
        CompositeRunView { comp: self.comp@, next: self.next as nat, runs: self.runs }
    }
}

/// A composite action that is running is one with these steps.
pub open spec fn is_composite_run(r: CompositeRunView, steps: Seq<StepView>) -> bool {
    &&& r.next <= steps.len()
    &&& r.runs is Some ==> r.next < steps.len()
}

/// A composite action that has come to its next step, and what is printed as that
/// begins; nothing where no step is left.
pub open spec fn composite_entered(r: CompositeRunView, steps: Seq<StepView>, c: ContextView) -> Result<
    (CompositeRunView, Option<Text>),
    Fault,
> {
    if r.next >= steps.len() {
        Ok((r, None))
    } else {
        let step = steps[r.next as int];
        match runs(step.if_cond, c) {
            Err(f) => Err(f),
            Ok(b) => Ok(
                (
                    CompositeRunView { comp: r.comp, next: r.next, runs: Some(b) },
                    Some("  │ ▹ "@ + decimal(r.next + 1) + ": "@ + label_of(step) + " … "@),
                ),
            ),
        }
    }
}

/// What is to be done for a step of a composite action.
#[derive(Debug)]
pub enum CompositeMove {
    /// Nothing: print this and go on.
    Skipped(String),
    /// Run a script.
    Script {
        /// The script.
        script: String,
        /// The shell.
        shell: String,
        /// The directory.
        cwd: String,
        /// The environment.
        env: StrMap,
    },
}

/// [`CompositeMove`] over views.
#[verifier::ext_equal]
pub enum CompositeMoveView {
    /// Nothing.
    Skipped(Text),
    /// A script, its shell, its directory and its environment.
    Script(Text, Text, Text, Seq<(Text, Text)>),
}

impl View for CompositeMove {
    type V = CompositeMoveView;

    open spec fn view(&self) -> CompositeMoveView {
        match *self {
            CompositeMove::Skipped(t) => CompositeMoveView::Skipped(t@),
            CompositeMove::Script { script, shell, cwd, env } => CompositeMoveView::Script(
                script@,
                shell@,
                cwd@,
                map_entries(env),
            ),
        }
    }
}

/// What is printed of an action inside a composite action.
pub open spec fn nested_text(action: Text) -> Text {
    "skipped (nested `uses: "@ + action + "` in composite not supported yet)"@
}

/// A composite action whose step at hand was passed over.
pub open spec fn composite_passed(r: CompositeRunView, step: StepView) -> CompositeRunView {
    CompositeRunView {
        comp: CompositeView {
            steps: with_step(r.comp.steps, step.id, Verdict::Skipped, Seq::empty()),
            status: r.comp.status,
        },
        next: r.next + 1,
        runs: None,
    }
}

/// What is to be done for the step at hand, and what the action becomes: a step
/// that does not run, or is an action itself, is passed over.
pub open spec fn composite_moved(
    r: CompositeRunView,
    steps: Seq<StepView>,
    env: Seq<(Text, Text)>,
    inputs: Seq<(Text, Text)>,
    c: ContextView,
    workspace: Text,
) -> Result<(CompositeRunView, CompositeMoveView), Fault> {
    let step = steps[r.next as int];
    if r.runs == Some(false) {
        Ok((composite_passed(r, step), CompositeMoveView::Skipped("skipped (if)"@)))
    } else {
        match composite_planned(step, env, inputs, c, workspace) {
            Err(f) => Err(f),
            Ok(CompositePlanView::Nested(a)) => Ok(
                (composite_passed(r, step), CompositeMoveView::Skipped(nested_text(a))),
            ),
            Ok(CompositePlanView::Run(script, shell, cwd, e)) => Ok(
                (r, CompositeMoveView::Script(script, shell, cwd, e)),
            ),
        }
    }
}

/// A composite action whose step at hand has run, and the line to print.
pub open spec fn composite_step_ended(
    r: CompositeRunView,
    steps: Seq<StepView>,
    c: ContextView,
    ok: bool,
    exit: Option<i32>,
    outputs: Seq<(Text, Text)>,
) -> Result<(CompositeRunView, Text), Fault> {
    match composite_finished(r.comp, steps[r.next as int], c, ok, exit, outputs) {
        Err(f) => Err(f),
        Ok(p) => Ok((CompositeRunView { comp: p.0, next: r.next + 1, runs: None }, p.1)),
    }
}

/// Begin a composite action.
pub fn run_composite() -> (r: CompositeRun)
    ensures
        r@ == (CompositeRunView {
            comp: CompositeView { steps: Seq::empty(), status: JobStatus::Success },
            next: 0,
            runs: None,
        }),
{
    CompositeRun { comp: Composite::new(), next: 0, runs: None }
}

impl CompositeRun {
    /// Come to the next step, given the job's environment, and return what is
    /// printed as it begins; nothing where no step is left. Where a number has to
    /// be converted first, all stays as it is, here as in what follows.
    pub fn enter(&mut self, steps: &Vec<Step>, env: &StrMap, inputs: &StrMap, s: &Surroundings) -> (r:
        Result<Option<String>, ExprError>)
        requires
            is_composite_run(old(self)@, step_views(steps@)),
            old(self)@.runs is None,
        ensures
            is_composite_run(final(self)@, step_views(steps@)),
            match r {
                Ok(h) => composite_entered(
                    old(self)@,
                    step_views(steps@),
                    composite_context(old(self)@.comp, map_entries(*env), map_entries(*inputs), s@),
                ) == Ok::<(CompositeRunView, Option<Text>), Fault>((final(self)@, opt_text(h))) && (h
                    is Some <==> final(self)@.runs is Some),
                Err(e) => final(self)@ == old(self)@ && composite_entered(
                    old(self)@,
                    step_views(steps@),
                    composite_context(old(self)@.comp, map_entries(*env), map_entries(*inputs), s@),
                ) == Err::<(CompositeRunView, Option<Text>), Fault>(e@),
            },
    {
        let n = steps.len();
        if self.next >= n {
            return Ok(None);
        }
        let step = &steps[self.next];
        assert(step_views(steps@)[self.next as int] == step@);
        match self.comp.step_runs(step, env, inputs, s) {
            Err(e) => Err(e),
            Ok(b) => {
                self.runs = Some(b);
                Ok(Some(composite_header(step, self.next + 1)))
            },
        }
    }

    /// Pass over the step at hand.
    fn pass_over(&mut self, steps: &Vec<Step>)
        requires
            is_composite_run(old(self)@, step_views(steps@)),
            old(self)@.runs is Some,
        ensures
            is_composite_run(final(self)@, step_views(steps@)),
            final(self)@ == composite_passed(
                old(self)@,
                step_views(steps@)[old(self)@.next as int],
            ),
    {
        let n = steps.len();
        assert(self.next < n);
        let step = &steps[self.next];
        assert(step_views(steps@)[self.next as int] == step@);
        self.comp.skip(step);
        self.next = self.next + 1;
        self.runs = None;
    }

    /// Decide what is to be done for the step at hand.
    pub fn plan(
        &mut self,
        steps: &Vec<Step>,
        env: &StrMap,
        inputs: &StrMap,
        s: &Surroundings,
        workspace: &str,
    ) -> (r: Result<CompositeMove, ExprError>)
        requires
            is_composite_run(old(self)@, step_views(steps@)),
            old(self)@.runs is Some,
        ensures
            is_composite_run(final(self)@, step_views(steps@)),
            match r {
                Ok(m) => composite_moved(
                    old(self)@,
                    step_views(steps@),
                    map_entries(*env),
                    map_entries(*inputs),
                    composite_context(old(self)@.comp, map_entries(*env), map_entries(*inputs), s@),
                    workspace@,
                ) == Ok::<(CompositeRunView, CompositeMoveView), Fault>((final(self)@, m@)) && (m
                    is Skipped <==> final(self)@.runs is None),
                Err(e) => final(self)@ == old(self)@ && composite_moved(
                    old(self)@,
                    step_views(steps@),
                    map_entries(*env),
                    map_entries(*inputs),
                    composite_context(old(self)@.comp, map_entries(*env), map_entries(*inputs), s@),
                    workspace@,
                ) == Err::<(CompositeRunView, CompositeMoveView), Fault>(e@),
            },
    {
        let n = steps.len();
        assert(self.next < n);
        let step = &steps[self.next];
        assert(step_views(steps@)[self.next as int] == step@);
        let goes = match self.runs {
            Some(b) => b,
            None => true,
        };
        if !goes {
            self.pass_over(steps);
            return Ok(CompositeMove::Skipped("skipped (if)".to_owned()));
        }
        match self.comp.plan(step, env, inputs, s, workspace) {
            Err(e) => Err(e),
            Ok(CompositePlan::Nested(a)) => {
                self.pass_over(steps);
                Ok(CompositeMove::Skipped(nested_note(a.as_str())))
            },
            Ok(CompositePlan::Run { script, shell, cwd, env }) => Ok(
                CompositeMove::Script { script, shell, cwd, env },
            ),
        }
    }

    /// Take in how the script of the step at hand ended, and return the line to
    /// print. The environment is the job's, as it was before the step.
    pub fn script_ended(
        &mut self,
        steps: &Vec<Step>,
        env: &StrMap,
        inputs: &StrMap,
        s: &Surroundings,
        ok: bool,
        code: i32,
        outputs: &Vec<(String, String)>,
    ) -> (r: Result<String, ExprError>)
        requires
            is_composite_run(old(self)@, step_views(steps@)),
            old(self)@.runs is Some,
        ensures
            is_composite_run(final(self)@, step_views(steps@)),
            match r {
                Ok(line) => composite_step_ended(
                    old(self)@,
                    step_views(steps@),
                    composite_context(old(self)@.comp, map_entries(*env), map_entries(*inputs), s@),
                    ok,
                    Some(code),
                    pairs(outputs@),
                ) == Ok::<(CompositeRunView, Text), Fault>((final(self)@, line@))
                    && final(self)@.runs is None,
                Err(e) => final(self)@ == old(self)@ && composite_step_ended(
                    old(self)@,
                    step_views(steps@),
                    composite_context(old(self)@.comp, map_entries(*env), map_entries(*inputs), s@),
                    ok,
                    Some(code),
                    pairs(outputs@),
                ) == Err::<(CompositeRunView, Text), Fault>(e@),
            },
    {
        let n = steps.len();
        assert(self.next < n);
        let step = &steps[self.next];
        assert(step_views(steps@)[self.next as int] == step@);
        match self.comp.finish(step, env, inputs, s, ok, Some(code), outputs) {
            Err(e) => Err(e),
            Ok(line) => {
                self.next = self.next + 1;
                self.runs = None;
                Ok(line)
            },
        }
    }
}

/// What is printed as a step of a composite action begins.
pub fn composite_header(step: &Step, number: usize) -> (r: String)
    ensures
        r@ == "  │ ▹ "@ + decimal(number as nat) + ": "@ + label_of(step@) + " … "@,
{
    concat5("  │ ▹ ", usize_text(number).as_str(), ": ", step_label(step).as_str(), " … ")
}

/// What is printed of an action inside a composite action.
pub fn nested_note(action: &str) -> (r: String)
    ensures
        r@ == nested_text(action@),
{
    concat3("skipped (nested `uses: ", action, "` in composite not supported yet)")
}

// ---------------------------------------------------------------------------
// JavaScript actions
// ---------------------------------------------------------------------------

/// What an action handed back; its variables are read first.
pub open spec fn action_handed_back(
    env: Text,
    path: Text,
    output: Text,
    printed: Seq<(Text, Text)>,
) -> Result<StepIoView, EnvFileFault> {
    match key_values(lines_of(env)) {
        Err(f) => Err(f),
        Ok(_) => handed_back(env, path, output, printed),
    }
}

/// Read what an action handed back, given the text of its channels and the
/// outputs that it printed.
pub fn read_action_channels(
    env: &str,
    path: &str,
    output: &str,
    printed: &Vec<(String, String)>,
) -> (r: Result<StepIo, EnvFileError>)
    ensures
        (match r {
            Ok(io) => Ok(io@),
            Err(e) => Err(e@),
        }) == action_handed_back(env@, path@, output@, pairs(printed@)),
{
    match parse_key_values(env) {
        Err(e) => Err(e),
        Ok(_) => read_channels(env, path, output, printed),
    }
}

/// The environment of a JavaScript action: the step's with the inputs, the
/// runner's variables, the channels, the state file and the action's directory.
pub open spec fn node_vars(
    env: Seq<(Text, Text)>,
    inputs: Seq<(Text, Text)>,
    path: Seq<Text>,
    s: SurroundingsView,
    workspace: Text,
    existing: Text,
    channels: ChannelsView,
    state: Text,
    dir: Text,
) -> Seq<(Text, Text)> {
    put(
        put(
            with_channels(
                common_env(put_all(env, input_vars(inputs)), path, s, workspace, existing),
                channels,
            ),
            "GITHUB_STATE"@,
            state,
        ),
        "GITHUB_ACTION_PATH"@,
        dir,
    )
}

/// The environment of a JavaScript action.
pub fn node_env(
    env: &StrMap,
    inputs: &StrMap,
    path: &Vec<String>,
    s: &Surroundings,
    workspace: &str,
    existing: &str,
    channels: &Channels,
    state: &str,
    dir: &str,
) -> (r: StrMap)
    ensures
        map_entries(r) == node_vars(
            map_entries(*env),
            map_entries(*inputs),
            texts(path@),
            s@,
            workspace@,
            existing@,
            channels@,
            state@,
            dir@,
        ),
{
    let mut base = map_copy(env);
    put_entries(&mut base, &input_env_vars(inputs));
    let mut m = apply_common_env(&base, path, s, workspace, existing);
    put_channels(&mut m, channels);
    map_put(&mut m, "GITHUB_STATE".to_owned(), state.to_owned());
    map_put(&mut m, "GITHUB_ACTION_PATH".to_owned(), dir.to_owned());
    m
}

// ---------------------------------------------------------------------------
// Docker actions
// ---------------------------------------------------------------------------

/// Where a Docker action's image comes from.
#[derive(Debug)]
pub enum Image {
    /// It is there under a name.
    Prebuilt(String),
    /// It is built from a file.
    Build(String),
}

/// [`Image`] over views.
#[verifier::ext_equal]
pub enum ImageView {
    /// It is there under a name.
    Prebuilt(Text),
    /// It is built from a file.
    Build(Text),
}

impl View for Image {
    type V = ImageView;

    open spec fn view(&self) -> ImageView {
        match *self {
            Image::Prebuilt(n) => ImageView::Prebuilt(n@),
            Image::Build(f) => ImageView::Build(f@),
        }
    }
}

/// Where an image comes from: `docker://` names one, a file of the action is
/// built, and anything else is a name.
pub open spec fn image_of(image: Text, dir: Text, is_file: bool) -> ImageView {
    match after_prefix(image, "docker://"@) {
        Some(name) => ImageView::Prebuilt(name),
        None => if is_file {
            ImageView::Build(path_join(dir, image))
        } else {
            ImageView::Prebuilt(image)
        },
    }
}

/// Where an image comes from, given whether it names a file of the action.
pub fn docker_image(image: &str, dir: &str, is_file: bool) -> (r: Image)
    ensures
        r@ == image_of(image@, dir@, is_file),
{
    match strip_prefix(image, "docker://") {
        Some(name) => Image::Prebuilt(name),
        None => if is_file {
            Image::Build(join_path(dir, image))
        } else {
            Image::Prebuilt(image.to_owned())
        },
    }
}

/// The tag of an image built from a directory with a hash.
pub open spec fn tag_text(hash: u64) -> Text {
    "stepci-action:"@ + crate::numtext::digits(hash as nat, 16)
}

/// The tag of an image built from a directory with a hash.
pub fn tag_of(hash: u64) -> (r: String)
    ensures
        r@ == tag_text(hash),
{
    concat2("stepci-action:", nat_text(hash as u128, 16).as_str())
}

/// The hash of a path.
pub uninterp spec fn path_hashed(dir: Seq<char>) -> u64;

/// `BuildHasher::hash_one`, with `DefaultHasher`, of a path. Equal paths hash
/// alike, and all hashers that are made this way are the same, so that the result
/// depends on the path alone. Which number it is is up to the standard library.
#[verifier::external_body]
fn path_hash(dir: &str) -> (r: u64)
    ensures
        r == path_hashed(dir@),
{
    BuildHasherDefault::<DefaultHasher>::default().hash_one(Path::new(dir))
}

/// A stable tag for the image of an action, derived from its directory.
pub fn docker_tag(dir: &str) -> (r: String)
    ensures
        r@ == tag_text(path_hashed(dir@)),
{
    tag_of(path_hash(dir))
}

/// The arguments that build an image.
pub fn docker_build_args(tag: &str, file: &str, dir: &str) -> (r: Vec<String>)
    ensures
        texts(r@) == seq!["build"@, "-q"@, "-t"@, tag@, "-f"@, file@, dir@],
{
    let mut v: Vec<String> = Vec::new();
    v.push("build".to_owned());
    v.push("-q".to_owned());
    v.push("-t".to_owned());
    v.push(tag.to_owned());
    v.push("-f".to_owned());
    v.push(file.to_owned());
    v.push(dir.to_owned());
    assert(texts(v@) =~= seq!["build"@, "-q"@, "-t"@, tag@, "-f"@, file@, dir@]);
    v
}

/// The variables of a container that the runner sets.
pub open spec fn container_vars(m: Seq<(Text, Text)>, github: ValueView) -> Seq<(Text, Text)> {
    let a = put(
        put(
            put(put(m, "GITHUB_WORKSPACE"@, "/github/workspace"@), "CI"@, "true"@),
            "GITHUB_ACTIONS"@,
            "true"@,
        ),
        "RUNNER_OS"@,
        "Linux"@,
    );
    let b = put(
        put(
            put(
                put(
                    put(a, "GITHUB_ENV"@, "/github/file_commands/env"@),
                    "GITHUB_OUTPUT"@,
                    "/github/file_commands/output"@,
                ),
                "GITHUB_PATH"@,
                "/github/file_commands/path"@,
            ),
            "GITHUB_STATE"@,
            "/github/file_commands/state"@,
        ),
        "GITHUB_SUMMARY"@,
        "/github/file_commands/summary"@,
    );
    github_vars(b, github)
}

/// The environment of a container: the step's, the inputs, the action's own, and
/// the runner's variables.
pub open spec fn docker_vars(
    env: Seq<(Text, Text)>,
    inputs: Seq<(Text, Text)>,
    own: Seq<(Text, Text)>,
    s: SurroundingsView,
) -> Result<Seq<(Text, Text)>, Fault> {
    match overlaid(put_all(env, input_vars(inputs)), own, docker_context(env, inputs, s)) {
        Err(f) => Err(f),
        Ok(m) => Ok(container_vars(m, s.github)),
    }
}

/// What an expression in a Docker action can read.
pub open spec fn docker_context(
    env: Seq<(Text, Text)>,
    inputs: Seq<(Text, Text)>,
    s: SurroundingsView,
) -> ContextView {
    plain_context(env, s, Seq::empty(), inputs, JobStatus::Success)
}

/// What an expression in a Docker action can read.
fn make_docker_context(env: &StrMap, inputs: &StrMap, s: &Surroundings) -> (r: Context)
    ensures
        r@ == docker_context(map_entries(*env), map_entries(*inputs), s@),
{
    make_context_with_inputs(env, s, &Members::new(), inputs, JobStatus::Success)
}

/// The environment of a container.
pub fn docker_env(env: &StrMap, inputs: &StrMap, own: &StrMap, s: &Surroundings) -> (r: Result<
    StrMap,
    ExprError,
>)
    ensures
        got_env(r) == docker_vars(
            map_entries(*env),
            map_entries(*inputs),
            map_entries(*own),
            s@,
        ),
{
    let c = make_docker_context(env, inputs, s);
    let mut base = map_copy(env);
    put_entries(&mut base, &input_env_vars(inputs));
    let mut m = match overlay_env(base, own, &c) {
        Ok(m) => m,
        Err(e) => {
            return Err(e);
        },
    };
    map_put(&mut m, "GITHUB_WORKSPACE".to_owned(), "/github/workspace".to_owned());
    map_put(&mut m, "CI".to_owned(), "true".to_owned());
    map_put(&mut m, "GITHUB_ACTIONS".to_owned(), "true".to_owned());
    map_put(&mut m, "RUNNER_OS".to_owned(), "Linux".to_owned());
    map_put(&mut m, "GITHUB_ENV".to_owned(), "/github/file_commands/env".to_owned());
    map_put(&mut m, "GITHUB_OUTPUT".to_owned(), "/github/file_commands/output".to_owned());
    map_put(&mut m, "GITHUB_PATH".to_owned(), "/github/file_commands/path".to_owned());
    map_put(&mut m, "GITHUB_STATE".to_owned(), "/github/file_commands/state".to_owned());
    map_put(&mut m, "GITHUB_SUMMARY".to_owned(), "/github/file_commands/summary".to_owned());
    put_github(&mut m, &s.github);
    Ok(m)
}

/// Templates filled in.
pub open spec fn filled_args(args: Seq<Text>, c: ContextView) -> Result<Seq<Text>, Fault>
    decreases args.len(),
{
    if args.len() == 0 {
        Ok(Seq::empty())
    } else {
        ahead(interpolated(args[0], c), filled_args(args.skip(1), c))
    }
}

/// The arguments that set variables.
pub open spec fn env_args(m: Seq<(Text, Text)>) -> Seq<Text>
    decreases m.len(),
{
    if m.len() == 0 {
        Seq::empty()
    } else {
        env_args(m.drop_last()).push("-e"@).push(m.last().0 + "="@ + m.last().1)
    }
}

/// The arguments that name an entry point.
pub open spec fn entry_args(entry: Option<Text>) -> Seq<Text> {
    match entry {
        Some(e) => seq!["--entrypoint"@, e],
        None => Seq::empty(),
    }
}

/// The arguments in front of the variables.
pub open spec fn mount_args(workspace: Text, channels: Text) -> Seq<Text> {
    seq![
        "run"@,
        "--rm"@,
        "-w"@,
        "/github/workspace"@,
        "-v"@,
        workspace + ":/github/workspace"@,
        "-v"@,
        channels + ":/github/file_commands"@,
    ]
}

/// The arguments that run a container, or why there are none.
pub open spec fn docker_line(
    workspace: Text,
    channels: Text,
    env: Seq<(Text, Text)>,
    inputs: Seq<(Text, Text)>,
    own: Seq<(Text, Text)>,
    entry: Option<Text>,
    image: Text,
    args: Seq<Text>,
    s: SurroundingsView,
) -> Result<Seq<Text>, Fault> {
    match docker_vars(env, inputs, own, s) {
        Err(f) => Err(f),
        Ok(m) => match filled_args(args, docker_context(env, inputs, s)) {
            Err(f) => Err(f),
            Ok(a) => Ok(
                mount_args(workspace, channels) + env_args(m) + entry_args(entry) + seq![image]
                    + a,
            ),
        },
    }
}

/// Fill in templates.
fn fill_args(args: &Vec<String>, c: &Context) -> (r: Result<Vec<String>, ExprError>)
    ensures
        (match r {
            Ok(v) => Ok(texts(v@)),
            Err(e) => Err(e@),
        }) == filled_args(texts(args@), c@),
{
    let ghost all = texts(args@);
    let mut out: Vec<String> = Vec::new();
    let mut i: usize = 0;
    proof {
        assert(all.skip(0) =~= all);
        assert(texts(out@) =~= Seq::empty());
        match filled_args(all, c@) {
            Ok(t) => {
                assert(Seq::<Text>::empty() + t =~= t);
            },
            Err(_) => {},
        }
    }
    while i < args.len()
        invariant
            i <= args@.len(),
            all == texts(args@),
            filled_args(all, c@) == after_done(texts(out@), filled_args(all.skip(i as int), c@)),
        decreases args@.len() - i,
    {
        let ghost done = texts(out@);
        assert(all.skip(i as int)[0] == args@[i as int]@);
        assert(all.skip(i as int).skip(1) =~= all.skip(i + 1));
        match interpolate(args[i].as_str(), c) {
            Err(e) => {
                return Err(e);
            },
            Ok(t) => {
                out.push(t);
                assert(texts(out@) =~= done.push(t@));
                proof {
                    match filled_args(all.skip(i + 1), c@) {
                        Ok(rest) => {
                            assert(done + (seq![t@] + rest) =~= texts(out@) + rest);
                        },
                        Err(_) => {},
                    }
                }
            },
        }
        i += 1;
    }
    assert(texts(out@) + Seq::<Text>::empty() =~= texts(out@));
    Ok(out)
}

/// Add the arguments that set variables.
fn push_env_args(out: &mut Vec<String>, m: &StrMap)
    ensures
        texts(final(out)@) == texts(old(out)@) + env_args(map_entries(*m)),
{
    let ghost start = texts(out@);
    let ghost all = map_entries(*m);
    let n = map_len(m);
    let mut i: usize = 0;
    assert(all.take(0) =~= Seq::empty());
    assert(start + env_args(all.take(0)) =~= texts(out@));
    while i < n
        invariant
            i <= n,
            n == all.len(),
            all == map_entries(*m),
            texts(out@) == start + env_args(all.take(i as int)),
        decreases n - i,
    {
        let ghost done = texts(out@);
        let (k, v) = map_entry(m, i);
        assert(all.take(i + 1).drop_last() =~= all.take(i as int));
        assert(all.take(i + 1).last() == (k@, v@));
        let kv = concat3(k.as_str(), "=", v.as_str());
        out.push("-e".to_owned());
        out.push(kv);
        assert(texts(out@) =~= done.push("-e"@).push(kv@));
        assert(texts(out@) =~= start + env_args(all.take(i + 1)));
        i += 1;
    }
    assert(all.take(n as int) =~= all);
}

/// The arguments that run a container: the workspace and the channels mounted,
/// the environment, the entry point, the image and the arguments of its own.
pub fn docker_run_args(
    workspace: &str,
    channels: &str,
    env: &StrMap,
    inputs: &StrMap,
    own: &StrMap,
    entry: &Option<String>,
    image: &str,
    args: &Vec<String>,
    s: &Surroundings,
) -> (r: Result<Vec<String>, ExprError>)
    ensures
        (match r {
            Ok(v) => Ok(texts(v@)),
            Err(e) => Err(e@),
        }) == docker_line(
            workspace@,
            channels@,
            map_entries(*env),
            map_entries(*inputs),
            map_entries(*own),
            opt_text(*entry),
            image@,
            texts(args@),
            s@,
        ),
{
    let m = match docker_env(env, inputs, own, s) {
        Ok(m) => m,
        Err(e) => {
            return Err(e);
        },
    };
    let rest = match fill_args(args, &make_docker_context(env, inputs, s)) {
        Ok(a) => a,
        Err(e) => {
            return Err(e);
        },
    };
    let mut v: Vec<String> = Vec::new();
    v.push("run".to_owned());
    v.push("--rm".to_owned());
    v.push("-w".to_owned());
    v.push("/github/workspace".to_owned());
    v.push("-v".to_owned());
    v.push(concat2(workspace, ":/github/workspace"));
    v.push("-v".to_owned());
    v.push(concat2(channels, ":/github/file_commands"));
    assert(texts(v@) =~= mount_args(workspace@, channels@));
    push_env_args(&mut v, &m);
    let ghost before = texts(v@);
    match entry {
        Some(e) => {
            v.push("--entrypoint".to_owned());
            v.push(e.clone());
        },
        None => {},
    }
    assert(texts(v@) =~= before + entry_args(opt_text(*entry)));
    v.push(image.to_owned());
    assert(texts(v@) =~= before + entry_args(opt_text(*entry)) + seq![image@]);
    let ghost head = texts(v@);
    let mut i: usize = 0;
    let ghost tail = texts(rest@);
    assert(head + tail.take(0) =~= texts(v@));
    while i < rest.len()
        invariant
            i <= rest@.len(),
            tail == texts(rest@),
            texts(v@) == head + tail.take(i as int),
        decreases rest@.len() - i,
    {
        let ghost done = texts(v@);
        let t = rest[i].clone();
        assert(tail[i as int] == t@);
        v.push(t);
        assert(texts(v@) =~= done.push(t@));
        assert(texts(v@) =~= head + tail.take(i + 1));
        i += 1;
    }
    assert(tail.take(rest@.len() as int) =~= tail);
    Ok(v)
}

// ---------------------------------------------------------------------------
// Laws
// ---------------------------------------------------------------------------

/// The steps of a composite action end once and in order, and none is left out:
/// whatever ends the step at hand, the action goes on to the one after it.
pub proof fn law_composite_steps_end_in_order(
    r: CompositeRunView,
    steps: Seq<StepView>,
    env: Seq<(Text, Text)>,
    inputs: Seq<(Text, Text)>,
    c: ContextView,
    workspace: Text,
    ok: bool,
    exit: Option<i32>,
    outputs: Seq<(Text, Text)>,
)
    requires
        is_composite_run(r, steps),
        r.runs is Some,
    ensures
        composite_moved(r, steps, env, inputs, c, workspace) matches Ok(p) ==> if p.1 is Skipped {
            p.0.next == r.next + 1 && p.0.comp.status == r.comp.status
        } else {
            p.0 == r && r.runs == Some(true)
        },
        composite_step_ended(r, steps, c, ok, exit, outputs) matches Ok(p) ==> p.0.next == r.next
            + 1,
{
}

/// What is given for an input is what the action sees, whatever its default is.
pub proof fn law_given_inputs_win(
    name: Text,
    input: InputView,
    with: Seq<(Text, Text)>,
    before: Seq<(Text, Text)>,
    c: ContextView,
)
    requires
        lookup(with, name) is Some,
    ensures
        declared_value(name, input, with, before, c) == input_text(
            lookup(with, name)->Some_0,
            c,
        ),
{
}

/// An input that is required, has no default and is not given is an error, which
/// names it.
pub proof fn law_required_inputs_are_demanded(
    name: Text,
    input: InputView,
    with: Seq<(Text, Text)>,
    before: Seq<(Text, Text)>,
    c: ContextView,
)
    requires
        lookup(with, name) is None,
        input.default is None,
        input.required,
    ensures
        declared_value(name, input, with, before, c) == Err::<Text, InputFault>(
            InputFault::Required(name),
        ),
{
}

/// Every declared input and every one that is given has a value.
pub proof fn law_all_inputs_are_seen(def: ActionView, with: Seq<(Text, Text)>, c: ContextView)
    requires
        inputs_of(def, with, c) is Ok,
    ensures
        forall|i: int|
            0 <= i < def.inputs.len() ==> lookup(
                inputs_of(def, with, c)->Ok_0,
                (#[trigger] def.inputs[i]).0,
            ) is Some,
        forall|i: int|
            0 <= i < with.len() ==> lookup(
                inputs_of(def, with, c)->Ok_0,
                (#[trigger] with[i]).0,
            ) is Some,
{
    let m = declared(def.inputs, with, c)->Ok_0;
    lemma_declared_seen(def.inputs, with, c);
    assert forall|i: int| 0 <= i < def.inputs.len() implies lookup(
        inputs_of(def, with, c)->Ok_0,
        (#[trigger] def.inputs[i]).0,
    ) is Some by {
        lemma_passed_keeps(m, with, c, def.inputs[i].0);
    }
    lemma_passed_seen(m, with, c);
}

/// Every declared input has a value.
proof fn lemma_declared_seen(
    inputs: Seq<(Text, InputView)>,
    with: Seq<(Text, Text)>,
    c: ContextView,
)
    requires
        declared(inputs, with, c) is Ok,
    ensures
        forall|i: int|
            0 <= i < inputs.len() ==> lookup(
                declared(inputs, with, c)->Ok_0,
                (#[trigger] inputs[i]).0,
            ) is Some,
    decreases inputs.len(),
{
    if inputs.len() > 0 {
        let d = inputs.drop_last();
        lemma_declared_seen(d, with, c);
        let m = declared(d, with, c)->Ok_0;
        let t = declared_value(inputs.last().0, inputs.last().1, with, m, c)->Ok_0;
        assert forall|i: int| 0 <= i < inputs.len() implies lookup(
            declared(inputs, with, c)->Ok_0,
            (#[trigger] inputs[i]).0,
        ) is Some by {
            crate::table::law_put_then_lookup(m, inputs.last().0, t, inputs[i].0);
            if i < d.len() {
                assert(d[i] == inputs[i]);
            }
        }
    }
}

/// Passing through loses nothing.
proof fn lemma_passed_keeps(
    m: Seq<(Text, Text)>,
    with: Seq<(Text, Text)>,
    c: ContextView,
    k: Text,
)
    requires
        passed_through(m, with, c) is Ok,
        lookup(m, k) is Some,
    ensures
        lookup(passed_through(m, with, c)->Ok_0, k) == lookup(m, k),
    decreases with.len(),
{
    if with.len() > 0 {
        lemma_passed_keeps(m, with.drop_last(), c, k);
        let n = passed_through(m, with.drop_last(), c)->Ok_0;
        if lookup(n, with.last().0) is None {
            let t = input_text(with.last().1, c)->Ok_0;
            crate::table::law_put_then_lookup(n, with.last().0, t, k);
        }
    }
}

/// Every input that is given has a value.
proof fn lemma_passed_seen(m: Seq<(Text, Text)>, with: Seq<(Text, Text)>, c: ContextView)
    requires
        passed_through(m, with, c) is Ok,
    ensures
        forall|i: int|
            0 <= i < with.len() ==> lookup(
                passed_through(m, with, c)->Ok_0,
                (#[trigger] with[i]).0,
            ) is Some,
    decreases with.len(),
{
    if with.len() > 0 {
        let d = with.drop_last();
        lemma_passed_seen(m, d, c);
        let n = passed_through(m, d, c)->Ok_0;
        assert forall|i: int| 0 <= i < with.len() implies lookup(
            passed_through(m, with, c)->Ok_0,
            (#[trigger] with[i]).0,
        ) is Some by {
            if i < d.len() {
                assert(d[i] == with[i]);
            }
            if lookup(n, with.last().0) is None {
                let t = input_text(with.last().1, c)->Ok_0;
                crate::table::law_put_then_lookup(n, with.last().0, t, with[i].0);
            }
        }
    }
}

/// The name of an input's variable holds no space.
pub proof fn law_input_variables_have_no_space(name: Text)
    ensures
        forall|i: int| 0 <= i < input_var(name).len() ==> #[trigger] input_var(name)[i] != ' ',
{
    reveal_strlit("INPUT_");
    lemma_no_space(uppered(name));
}

/// Replacing spaces leaves none.
proof fn lemma_no_space(s: Text)
    ensures
        forall|i: int|
            0 <= i < replaced(s, " "@, "_"@).len() ==> #[trigger] replaced(s, " "@, "_"@)[i]
                != ' ',
    decreases s.len(),
{
    reveal_strlit(" ");
    reveal_strlit("_");
    let p = " "@;
    let r = replaced(s, p, "_"@);
    crate::scan::lemma_index_from(s, p, 0);
    match crate::scan::index_of(s, p) {
        Some(i) => {
            let tail = replaced(s.skip(i + 1), p, "_"@);
            lemma_no_space(s.skip(i + 1));
            assert(r == s.take(i) + "_"@ + tail);
            assert forall|k: int| 0 <= k < r.len() implies #[trigger] r[k] != ' ' by {
                if k < i {
                    assert(!crate::text::has_at(s, p, k));
                    if s[k] == ' ' {
                        assert(s.subrange(k, k + 1) =~= p);
                    }
                } else if k > i {
                    assert(r[k] == tail[k - i - 1]);
                }
            }
        },
        None => {
            assert forall|k: int| 0 <= k < r.len() implies #[trigger] r[k] != ' ' by {
                assert(!crate::text::has_at(s, p, k));
                if s[k] == ' ' {
                    assert(s.subrange(k, k + 1) =~= p);
                }
            }
        },
    }
}

} // verus!
