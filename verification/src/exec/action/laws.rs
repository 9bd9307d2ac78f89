//! What actions are, what they see, and how they are started.

use crate::exec::action::{
    composite_context, composite_entered, composite_moved, composite_outputs, composite_planned,
    composite_step_ended, container_vars, declared, declared_value, docker_context, docker_line,
    docker_vars, entry_args, env_args, filled_args, image_of, input_text, input_var, input_vars,
    inputs_of, metadata_file, mount_args, node_vars, passed_through, referred, tag_text,
    CompositeMoveView, CompositePlanView, CompositeRunView, CompositeView, ImageView, InputFault,
    TargetView,
};
use crate::exec::context::{
    plain_context, str_value, string_at, with_var, SurroundingsView,
};
use crate::exec::laws::given_or;
use crate::exec::shell::{common_env, with_channels, ChannelsView};
use crate::exec::step::{exit_text, judged, label_of, overlaid, runs, with_step, Verdict};
use crate::expr::error::Fault;
use crate::expr::eval::{ContextView, JobStatus};
use crate::expr::interpolated;
use crate::fetch::remote;
use crate::model::{ActionView, InputView, RunsView, StepActionView, StepView};
use crate::numtext::decimal;
use crate::paths::path_join;
use crate::scan::replaced;
use crate::table::{distinct, law_last_pair_counts, law_put_then_lookup, lookup, put, put_all};
use crate::text::{begins, law_prefixes_and_suffixes, upper, uppered, Text};
use crate::value::ValueView;
use vstd::prelude::*;

verus! {

// ---------------------------------------------------------------------------
// References
// ---------------------------------------------------------------------------

/// `docker://` names an image, `./` and `../` a directory of the workspace, and
/// anything else a repository or nothing.
pub proof fn law_what_a_reference_names(r: Text, workspace: Text)
    ensures
        referred("docker://"@ + r, workspace) matches TargetView::Image(a) && a.inputs.len() == 0
            && a.outputs.len() == 0 && a.runs == RunsView::Docker(
            r,
            None,
            Seq::empty(),
            Seq::empty(),
        ),
        referred("./"@ + r, workspace) == TargetView::Dir(path_join(workspace, "./"@ + r)),
        referred("../"@ + r, workspace) == TargetView::Dir(path_join(workspace, "../"@ + r)),
        !begins(r, "docker://"@) && !begins(r, "./"@) && !begins(r, "../"@) ==> (remote(
            r,
        ) matches Some(x) ==> referred(r, workspace) == TargetView::Remote(x)),
        !begins(r, "docker://"@) && !begins(r, "./"@) && !begins(r, "../"@) && remote(r) is None
            ==> referred(r, workspace) == TargetView::Unsupported(
            "unrecognized `uses:` reference `"@ + r + "`"@,
        ),
{
    reveal_strlit("docker://");
    reveal_strlit("./");
    reveal_strlit("../");
    law_prefixes_and_suffixes(r, "docker://"@);
    let a = "./"@ + r;
    let b = "../"@ + r;
    assert("docker://"@[0] == 'd');
    assert(a[0] == '.' && b[0] == '.');
    if begins(a, "docker://"@) {
        assert(a.subrange(0, 9)[0] == 'd');
    }
    if begins(b, "docker://"@) {
        assert(b.subrange(0, 9)[0] == 'd');
    }
    assert(a.subrange(0, 2) =~= "./"@);
    assert(b.subrange(0, 3) =~= "../"@);
}

/// An action is described by `action.yml`, or by `action.yaml` where there is no
/// such file.
pub proof fn law_where_an_action_is_described(dir: Text, yml: bool, yaml: bool)
    ensures
        yml ==> metadata_file(dir, yml, yaml) == Ok::<Text, Text>(path_join(dir, "action.yml"@)),
        !yml && yaml ==> metadata_file(dir, yml, yaml) == Ok::<Text, Text>(
            path_join(dir, "action.yaml"@),
        ),
        !yml && !yaml ==> metadata_file(dir, yml, yaml) is Err,
{
}

// ---------------------------------------------------------------------------
// Inputs
// ---------------------------------------------------------------------------

/// An input that was given is its text in the context of the caller; one that was
/// not is its default, which may read the inputs before it, or else empty unless
/// it is required.
pub proof fn law_values_of_inputs(
    name: Text,
    input: InputView,
    with: Seq<(Text, Text)>,
    before: Seq<(Text, Text)>,
    c: ContextView,
)
    ensures
        lookup(with, name) matches Some(raw) ==> (interpolated(raw, c) matches Ok(t)
            ==> declared_value(name, input, with, before, c) == Ok::<Text, InputFault>(t)),
        lookup(with, name) matches Some(raw) ==> (interpolated(raw, c) matches Err(f)
            ==> declared_value(name, input, with, before, c) == Err::<Text, InputFault>(
            InputFault::Expr(f),
        )),
        lookup(with, name) is None ==> (input.default matches Some(d) ==> (interpolated(
            d,
            with_var(c, "inputs"@, str_value(before)),
        ) matches Ok(t) ==> declared_value(name, input, with, before, c) == Ok::<Text, InputFault>(
            t,
        ))),
        lookup(with, name) is None && input.default is None && input.required ==> declared_value(
            name,
            input,
            with,
            before,
            c,
        ) == Err::<Text, InputFault>(InputFault::Required(name)),
        lookup(with, name) is None && input.default is None && !input.required ==> declared_value(
            name,
            input,
            with,
            before,
            c,
        ) == Ok::<Text, InputFault>(Seq::empty()),
{
}

/// An action sees each of its inputs with its value, and whatever else it was
/// given.
pub proof fn law_inputs_have_their_values(
    def: ActionView,
    with: Seq<(Text, Text)>,
    c: ContextView,
    i: int,
)
    requires
        distinct(def.inputs),
        inputs_of(def, with, c) is Ok,
        0 <= i < def.inputs.len(),
    ensures
        declared(def.inputs.take(i), with, c) is Ok,
        declared_value(
            def.inputs[i].0,
            def.inputs[i].1,
            with,
            declared(def.inputs.take(i), with, c)->Ok_0,
            c,
        ) == Ok::<Text, InputFault>(
            lookup(inputs_of(def, with, c)->Ok_0, def.inputs[i].0)->Some_0,
        ),
        lookup(inputs_of(def, with, c)->Ok_0, def.inputs[i].0) is Some,
{
    lemma_declared(def.inputs, with, c, i);
    lemma_passed_keeps(declared(def.inputs, with, c)->Ok_0, with, c, def.inputs[i].0);
}

proof fn lemma_declared(
    inputs: Seq<(Text, InputView)>,
    with: Seq<(Text, Text)>,
    c: ContextView,
    i: int,
)
    requires
        distinct(inputs),
        declared(inputs, with, c) is Ok,
        0 <= i < inputs.len(),
    ensures
        declared(inputs.take(i), with, c) is Ok,
        lookup(declared(inputs, with, c)->Ok_0, inputs[i].0) is Some,
        declared_value(
            inputs[i].0,
            inputs[i].1,
            with,
            declared(inputs.take(i), with, c)->Ok_0,
            c,
        ) == Ok::<Text, InputFault>(lookup(declared(inputs, with, c)->Ok_0, inputs[i].0)->Some_0),
    decreases inputs.len(),
{
    let d = inputs.drop_last();
    let last = inputs.last();
    let m = declared(d, with, c)->Ok_0;
    let t = declared_value(last.0, last.1, with, m, c)->Ok_0;
    law_put_then_lookup(m, last.0, t, inputs[i].0);
    if i < d.len() {
        assert(distinct(d)) by {
            assert forall|a: int, b: int| 0 <= a < b < d.len() implies (#[trigger] d[a]).0 != (
            #[trigger] d[b]).0 by {
                assert(inputs[a].0 != inputs[b].0);
            }
        }
        lemma_declared(d, with, c, i);
        assert(d.take(i) =~= inputs.take(i));
        assert(inputs[i].0 != inputs[inputs.len() - 1].0);
    } else {
        assert(inputs.take(i) =~= d);
    }
}

proof fn lemma_passed_keeps(
    m: Seq<(Text, Text)>,
    with: Seq<(Text, Text)>,
    c: ContextView,
    k: Text,
)
    requires
        passed_through(m, with, c) is Ok,
    ensures
        lookup(m, k) is Some ==> lookup(passed_through(m, with, c)->Ok_0, k) == lookup(m, k),
        lookup(m, k) is None && lookup(with, k) is None ==> lookup(
            passed_through(m, with, c)->Ok_0,
            k,
        ) is None,
    decreases with.len(),
{
    if with.len() > 0 {
        let d = with.drop_last();
        lemma_passed_keeps(m, d, c, k);
        let n = passed_through(m, d, c)->Ok_0;
        crate::table::law_lookup_finds_only_pairs(with, k);
        crate::table::law_lookup_finds_only_pairs(d, k);
        if lookup(with, k) is None {
            assert forall|j: int| 0 <= j < d.len() implies (#[trigger] d[j]).0 != k by {
                assert(with[j].0 != k);
            }
            assert(with[with.len() - 1].0 != k);
        }
        if lookup(n, with.last().0) is None {
            law_put_then_lookup(n, with.last().0, input_text(with.last().1, c)->Ok_0, k);
        }
    }
}

/// What was given and is not declared is passed on as its text.
pub proof fn law_other_inputs_are_passed_on(
    def: ActionView,
    with: Seq<(Text, Text)>,
    c: ContextView,
    i: int,
)
    requires
        distinct(with),
        inputs_of(def, with, c) is Ok,
        0 <= i < with.len(),
        forall|j: int| 0 <= j < def.inputs.len() ==> (#[trigger] def.inputs[j]).0 != with[i].0,
    ensures
        interpolated(with[i].1, c) == Ok::<Text, Fault>(
            lookup(inputs_of(def, with, c)->Ok_0, with[i].0)->Some_0,
        ),
        lookup(inputs_of(def, with, c)->Ok_0, with[i].0) is Some,
{
    lemma_not_declared(def.inputs, with, c, with[i].0);
    lemma_passed(declared(def.inputs, with, c)->Ok_0, with, c, i);
}

proof fn lemma_not_declared(
    inputs: Seq<(Text, InputView)>,
    with: Seq<(Text, Text)>,
    c: ContextView,
    k: Text,
)
    requires
        declared(inputs, with, c) is Ok,
        forall|j: int| 0 <= j < inputs.len() ==> (#[trigger] inputs[j]).0 != k,
    ensures
        lookup(declared(inputs, with, c)->Ok_0, k) is None,
    decreases inputs.len(),
{
    if inputs.len() > 0 {
        let d = inputs.drop_last();
        assert forall|j: int| 0 <= j < d.len() implies (#[trigger] d[j]).0 != k by {
            assert(inputs[j].0 != k);
        }
        assert(inputs[inputs.len() - 1].0 != k);
        lemma_not_declared(d, with, c, k);
        let m = declared(d, with, c)->Ok_0;
        let last = inputs.last();
        law_put_then_lookup(m, last.0, declared_value(last.0, last.1, with, m, c)->Ok_0, k);
    }
}

proof fn lemma_passed(m: Seq<(Text, Text)>, with: Seq<(Text, Text)>, c: ContextView, i: int)
    requires
        distinct(with),
        passed_through(m, with, c) is Ok,
        0 <= i < with.len(),
        lookup(m, with[i].0) is None,
    ensures
        lookup(passed_through(m, with, c)->Ok_0, with[i].0) is Some,
        interpolated(with[i].1, c) == Ok::<Text, Fault>(
            lookup(passed_through(m, with, c)->Ok_0, with[i].0)->Some_0,
        ),
    decreases with.len(),
{
    let d = with.drop_last();
    let last = with.last();
    let k = with[i].0;
    let n = passed_through(m, d, c)->Ok_0;
    if i < d.len() {
        assert(distinct(d)) by {
            assert forall|a: int, b: int| 0 <= a < b < d.len() implies (#[trigger] d[a]).0 != (
            #[trigger] d[b]).0 by {
                assert(with[a].0 != with[b].0);
            }
        }
        lemma_passed(m, d, c, i);
        assert(with[i].0 != with[with.len() - 1].0);
        if lookup(n, last.0) is None {
            law_put_then_lookup(n, last.0, input_text(last.1, c)->Ok_0, k);
        }
    } else {
        crate::table::law_lookup_finds_only_pairs(d, k);
        assert forall|j: int| 0 <= j < d.len() implies (#[trigger] d[j]).0 != k by {
            assert(with[j].0 != with[i].0);
        }
        lemma_passed_keeps(m, d, c, k);
        law_put_then_lookup(n, last.0, input_text(last.1, c)->Ok_0, k);
    }
}

/// The variable of an input is `INPUT_` and its name, in upper case and with
/// underscores for spaces, character by character.
pub proof fn law_variables_of_inputs(name: Text, i: int)
    requires
        0 <= i < name.len(),
    ensures
        input_var(name).len() == 6 + name.len(),
        input_var(name).take(6) == seq!['I', 'N', 'P', 'U', 'T', '_'],
        name[i] == ' ' ==> input_var(name)[6 + i] == '_',
        name[i] != ' ' ==> input_var(name)[6 + i] == upper(name[i]),
{
    reveal_strlit("INPUT_");
    lemma_underscored(uppered(name));
    assert(input_var(name).take(6) =~= seq!['I', 'N', 'P', 'U', 'T', '_']);
    assert(uppered(name)[i] == upper(name[i]));
    assert(upper(name[i]) == ' ' <==> name[i] == ' ');
}

proof fn lemma_underscored(s: Text)
    ensures
        replaced(s, " "@, "_"@).len() == s.len(),
        forall|i: int|
            0 <= i < s.len() ==> #[trigger] replaced(s, " "@, "_"@)[i] == (if s[i] == ' ' {
                '_'
            } else {
                s[i]
            }),
    decreases s.len(),
{
    reveal_strlit(" ");
    reveal_strlit("_");
    let p = " "@;
    crate::scan::lemma_index_from(s, p, 0);
    let r = replaced(s, p, "_"@);
    if let Some(k) = crate::scan::index_of(s, p) {
        let t = s.skip(k + 1);
        lemma_underscored(t);
        assert(s.subrange(k, k + 1)[0] == ' ');
        assert(r =~= s.take(k) + "_"@ + replaced(t, p, "_"@));
        assert forall|i: int| 0 <= i < s.len() implies #[trigger] r[i] == (if s[i] == ' ' {
            '_'
        } else {
            s[i]
        }) by {
            if i < k {
                assert(!crate::text::has_at(s, p, i));
                if s[i] == ' ' {
                    assert(s.subrange(i, i + 1) =~= p);
                }
            } else if i > k {
                assert(r[i] == replaced(t, p, "_"@)[i - k - 1]);
            }
        }
    } else {
        assert forall|i: int| 0 <= i < s.len() implies #[trigger] r[i] == (if s[i] == ' ' {
            '_'
        } else {
            s[i]
        }) by {
            assert(!crate::text::has_at(s, p, i));
            if s[i] == ' ' {
                assert(s.subrange(i, i + 1) =~= p);
            }
        }
    }
}

/// Each input is found under its variable.
pub proof fn law_inputs_are_variables(inputs: Seq<(Text, Text)>, i: int)
    requires
        0 <= i < inputs.len(),
        forall|j: int|
            i < j < inputs.len() ==> input_var((#[trigger] inputs[j]).0) != input_var(inputs[i].0),
    ensures
        lookup(input_vars(inputs), input_var(inputs[i].0)) == Some(inputs[i].1),
{
    let m = inputs.map_values(|e: (Text, Text)| (input_var(e.0), e.1));
    law_last_pair_counts(Seq::empty(), m, input_var(inputs[i].0));
    assert(m[i].0 == input_var(inputs[i].0));
    assert forall|j: int| i < j < m.len() implies (#[trigger] m[j]).0 != input_var(
        inputs[i].0,
    ) by {
        assert(input_var(inputs[j].0) != input_var(inputs[i].0));
    }
}

// ---------------------------------------------------------------------------
// Composite actions
// ---------------------------------------------------------------------------

/// A step of a composite action reads the inputs, the steps before it and the
/// status of the action.
pub proof fn law_what_composite_steps_read(
    comp: CompositeView,
    env: Seq<(Text, Text)>,
    inputs: Seq<(Text, Text)>,
    s: SurroundingsView,
)
    ensures
        composite_context(comp, env, inputs, s) == plain_context(
            env,
            s,
            comp.steps,
            inputs,
            comp.status,
        ),
{
}

/// A step of a composite action runs its script, filled, in its own shell, or in
/// `bash`, in its own directory under the workspace, with the inputs as variables
/// and its own variables over them; a nested action is not run.
pub proof fn law_what_composite_steps_do(
    step: StepView,
    env: Seq<(Text, Text)>,
    inputs: Seq<(Text, Text)>,
    c: ContextView,
    workspace: Text,
)
    ensures
        step.action matches StepActionView::Uses(action, _) ==> composite_planned(
            step,
            env,
            inputs,
            c,
            workspace,
        ) == Ok::<CompositePlanView, Fault>(CompositePlanView::Nested(action)),
        step.action matches StepActionView::Run(script) ==> (composite_planned(
            step,
            env,
            inputs,
            c,
            workspace,
        ) matches Ok(p) ==> (p matches CompositePlanView::Run(t, shell, cwd, e) && {
            &&& interpolated(script, c) == Ok::<Text, Fault>(t)
            &&& step.shell matches Some(x) ==> shell == x
            &&& step.shell is None ==> shell == "bash"@
            &&& step.working_directory matches Some(d) ==> cwd == path_join(workspace, d)
            &&& step.working_directory is None ==> cwd == workspace
            &&& overlaid(put_all(env, input_vars(inputs)), step.env, c) == Ok::<
                Seq<(Text, Text)>,
                Fault,
            >(e)
        })),
        step.action matches StepActionView::Run(script) ==> (interpolated(script, c) matches Err(f)
            ==> composite_planned(step, env, inputs, c, workspace) == Err::<
            CompositePlanView,
            Fault,
        >(f)),
{
}

/// A step of a composite action is announced with its number, counted from one,
/// and its label, and it is settled whether it runs; when all have ended nothing
/// is.
pub proof fn law_composite_steps_begin(r: CompositeRunView, steps: Seq<StepView>, c: ContextView)
    ensures
        r.next >= steps.len() ==> composite_entered(r, steps, c) == Ok::<
            (CompositeRunView, Option<Text>),
            Fault,
        >((r, None)),
        r.next < steps.len() ==> (runs(steps[r.next as int].if_cond, c) matches Ok(b)
            ==> composite_entered(r, steps, c) == Ok::<(CompositeRunView, Option<Text>), Fault>(
            (
                CompositeRunView { comp: r.comp, next: r.next, runs: Some(b) },
                Some(
                    "  │ ▹ "@ + decimal(r.next + 1) + ": "@ + label_of(steps[r.next as int])
                        + " … "@,
                ),
            ),
        )),
        r.next < steps.len() ==> (runs(steps[r.next as int].if_cond, c) matches Err(f)
            ==> composite_entered(r, steps, c) == Err::<(CompositeRunView, Option<Text>), Fault>(
            f,
        )),
{
}

/// A step whose condition is false is passed over, and so is a nested action; any
/// other is handed out as planned.
pub proof fn law_composite_steps_are_handed_out(
    r: CompositeRunView,
    steps: Seq<StepView>,
    env: Seq<(Text, Text)>,
    inputs: Seq<(Text, Text)>,
    c: ContextView,
    workspace: Text,
)
    requires
        r.next < steps.len(),
        r.runs is Some,
    ensures
        ({
            let step = steps[r.next as int];
            let m = composite_moved(r, steps, env, inputs, c, workspace);
            let plan = composite_planned(step, env, inputs, c, workspace);
            let over = CompositeRunView {
                comp: CompositeView {
                    steps: with_step(r.comp.steps, step.id, Verdict::Skipped, Seq::empty()),
                    status: r.comp.status,
                },
                next: r.next + 1,
                runs: None,
            };
            &&& r.runs == Some(false) ==> m == Ok::<(CompositeRunView, CompositeMoveView), Fault>(
                (over, CompositeMoveView::Skipped("skipped (if)"@)),
            )
            &&& r.runs == Some(true) ==> (plan matches Ok(CompositePlanView::Nested(a)) ==> m
                == Ok::<(CompositeRunView, CompositeMoveView), Fault>(
                (
                    over,
                    CompositeMoveView::Skipped(
                        "skipped (nested `uses: "@ + a + "` in composite not supported yet)"@,
                    ),
                ),
            ))
            &&& r.runs == Some(true) ==> (plan matches Ok(CompositePlanView::Run(t, sh, cwd, e))
                ==> m == Ok::<(CompositeRunView, CompositeMoveView), Fault>(
                (r, CompositeMoveView::Script(t, sh, cwd, e)),
            ))
            &&& r.runs == Some(true) ==> (plan matches Err(f) ==> m == Err::<
                (CompositeRunView, CompositeMoveView),
                Fault,
            >(f))
        }),
{
}

/// When a step of a composite action has ended, its id holds what came of it and
/// the action has failed where the step did and was not forgiven.
pub proof fn law_how_composite_steps_end(
    r: CompositeRunView,
    steps: Seq<StepView>,
    c: ContextView,
    ok: bool,
    exit: Option<i32>,
    outputs: Seq<(Text, Text)>,
)
    requires
        r.next < steps.len(),
    ensures
        judged(steps[r.next as int], ok, c) matches Ok(v) ==> (composite_step_ended(
            r,
            steps,
            c,
            ok,
            exit,
            outputs,
        ) matches Ok(p) && {
            &&& p.0.next == r.next + 1
            &&& p.0.runs is None
            &&& p.0.comp.steps == with_step(r.comp.steps, steps[r.next as int].id, v, outputs)
            &&& v == Verdict::Failed ==> p.0.comp.status == JobStatus::Failure
            &&& v != Verdict::Failed ==> p.0.comp.status == r.comp.status
            &&& v == Verdict::Passed ==> p.1 == "  │   ✓"@
            &&& v == Verdict::Failed ==> p.1 == "  │   ✗ failed"@ + exit_text(exit)
            &&& v == Verdict::Forgiven ==> p.1 == "  │   ⚠ failed"@ + exit_text(exit)
                + " — continue-on-error"@
        }),
        judged(steps[r.next as int], ok, c) matches Err(f) ==> composite_step_ended(
            r,
            steps,
            c,
            ok,
            exit,
            outputs,
        ) == Err::<(CompositeRunView, Text), Fault>(f),
{
}

/// A composite action has the outputs that it gives a value, each filled, and no
/// others.
pub proof fn law_outputs_of_composite_actions(
    outputs: Seq<(Text, Option<Text>)>,
    c: ContextView,
    k: Text,
)
    requires
        distinct(outputs),
        composite_outputs(outputs, c) is Ok,
    ensures
        forall|i: int|
            0 <= i < outputs.len() && (#[trigger] outputs[i]).0 == k ==> match outputs[i].1 {
                Some(e) => lookup(composite_outputs(outputs, c)->Ok_0, k) is Some && interpolated(
                    e,
                    c,
                ) == Ok::<Text, Fault>(lookup(composite_outputs(outputs, c)->Ok_0, k)->Some_0),
                None => lookup(composite_outputs(outputs, c)->Ok_0, k) is None,
            },
        (forall|i: int| 0 <= i < outputs.len() ==> (#[trigger] outputs[i]).0 != k) ==> lookup(
            composite_outputs(outputs, c)->Ok_0,
            k,
        ) is None,
    decreases outputs.len(),
{
    if outputs.len() > 0 {
        let d = outputs.drop_last();
        let last = outputs.last();
        assert(distinct(d)) by {
            assert forall|a: int, b: int| 0 <= a < b < d.len() implies (#[trigger] d[a]).0 != (
            #[trigger] d[b]).0 by {
                assert(outputs[a].0 != outputs[b].0);
            }
        }
        law_outputs_of_composite_actions(d, c, k);
        let m = composite_outputs(d, c)->Ok_0;
        if let Some(e) = last.1 {
            law_put_then_lookup(m, last.0, interpolated(e, c)->Ok_0, k);
        }
        if last.0 == k {
            assert forall|i: int| 0 <= i < d.len() implies (#[trigger] d[i]).0 != k by {
                assert(outputs[i].0 != outputs[outputs.len() - 1].0);
            }
        }
        assert forall|i: int| 0 <= i < outputs.len() && (#[trigger] outputs[i]).0 == k implies (
        match outputs[i].1 {
            Some(e) => lookup(composite_outputs(outputs, c)->Ok_0, k) is Some && interpolated(e, c)
                == Ok::<Text, Fault>(lookup(composite_outputs(outputs, c)->Ok_0, k)->Some_0),
            None => lookup(composite_outputs(outputs, c)->Ok_0, k) is None,
        }) by {
            if i < d.len() {
                assert(d[i].0 == k);
                assert(outputs[i].0 != outputs[outputs.len() - 1].0);
            }
        }
        if forall|i: int| 0 <= i < outputs.len() ==> (#[trigger] outputs[i]).0 != k {
            assert(outputs[outputs.len() - 1].0 != k);
            assert forall|i: int| 0 <= i < d.len() implies (#[trigger] d[i]).0 != k by {
                assert(outputs[i].0 != k);
            }
        }
    }
}

// ---------------------------------------------------------------------------
// JavaScript and Docker actions
// ---------------------------------------------------------------------------

/// A JavaScript action finds its directory, the file for its state and the
/// channels, whatever the environment holds; the rest is the environment with the
/// inputs as variables, as any process has it.
pub proof fn law_environment_of_a_javascript_action(
    env: Seq<(Text, Text)>,
    inputs: Seq<(Text, Text)>,
    path: Seq<Text>,
    s: SurroundingsView,
    workspace: Text,
    existing: Text,
    channels: ChannelsView,
    state: Text,
    dir: Text,
    k: Text,
)
    ensures
        ({
            let e = node_vars(env, inputs, path, s, workspace, existing, channels, state, dir);
            let base = common_env(put_all(env, input_vars(inputs)), path, s, workspace, existing);
            &&& lookup(e, "GITHUB_STATE"@) == Some(state)
            &&& lookup(e, "GITHUB_ACTION_PATH"@) == Some(dir)
            &&& k != "GITHUB_STATE"@ && k != "GITHUB_ACTION_PATH"@ ==> lookup(e, k) == lookup(
                with_channels(base, channels),
                k,
            )
        }),
{
    reveal_strlit("GITHUB_STATE");
    reveal_strlit("GITHUB_ACTION_PATH");
    assert("GITHUB_STATE"@.len() == 12 && "GITHUB_ACTION_PATH"@.len() == 18);
    let base = common_env(put_all(env, input_vars(inputs)), path, s, workspace, existing);
    let m = with_channels(base, channels);
    law_put_then_lookup(m, "GITHUB_STATE"@, state, k);
    law_put_then_lookup(put(m, "GITHUB_STATE"@, state), "GITHUB_ACTION_PATH"@, dir, k);
    law_put_then_lookup(
        put(m, "GITHUB_STATE"@, state),
        "GITHUB_ACTION_PATH"@,
        dir,
        "GITHUB_STATE"@,
    );
}

/// An image is one that is there where it is named with `docker://` or is no file
/// of the action, and is built from the file otherwise.
pub proof fn law_images_are_built_from_files(name: Text, image: Text, dir: Text, is_file: bool)
    ensures
        image_of("docker://"@ + name, dir, is_file) == ImageView::Prebuilt(name),
        (forall|t: Text| image != #[trigger] ("docker://"@ + t)) && is_file ==> image_of(
            image,
            dir,
            is_file,
        ) == ImageView::Build(path_join(dir, image)),
        (forall|t: Text| image != #[trigger] ("docker://"@ + t)) && !is_file ==> image_of(
            image,
            dir,
            is_file,
        ) == ImageView::Prebuilt(image),
{
    law_prefixes_and_suffixes(name, "docker://"@);
    law_prefixes_and_suffixes(image, "docker://"@);
}

/// The names of the variables of a container are told apart.
proof fn lemma_container_names()
    ensures
        "GITHUB_WORKSPACE"@.len() == 16,
        "CI"@.len() == 2,
        "GITHUB_ACTIONS"@.len() == 14 && "GITHUB_ACTIONS"@[7] == 'A',
        "RUNNER_OS"@.len() == 9,
        "GITHUB_ENV"@.len() == 10 && "GITHUB_ENV"@[7] == 'E',
        "GITHUB_OUTPUT"@.len() == 13,
        "GITHUB_PATH"@.len() == 11,
        "GITHUB_STATE"@.len() == 12,
        "GITHUB_SUMMARY"@.len() == 14 && "GITHUB_SUMMARY"@[7] == 'S',
        "GITHUB_SHA"@.len() == 10 && "GITHUB_SHA"@[7] == 'S',
        "GITHUB_REF"@.len() == 10 && "GITHUB_REF"@[7] == 'R',
        "GITHUB_REF_NAME"@.len() == 15,
        "GITHUB_EVENT_NAME"@.len() == 17,
{
    reveal_strlit("GITHUB_WORKSPACE");
    reveal_strlit("CI");
    reveal_strlit("GITHUB_ACTIONS");
    reveal_strlit("RUNNER_OS");
    reveal_strlit("GITHUB_ENV");
    reveal_strlit("GITHUB_OUTPUT");
    reveal_strlit("GITHUB_PATH");
    reveal_strlit("GITHUB_STATE");
    reveal_strlit("GITHUB_SUMMARY");
    reveal_strlit("GITHUB_SHA");
    reveal_strlit("GITHUB_REF");
    reveal_strlit("GITHUB_REF_NAME");
    reveal_strlit("GITHUB_EVENT_NAME");
}

proof fn lemma_puts()
    ensures
        forall|m: Seq<(Text, Text)>, k: Text, v: Text, o: Text| #[trigger]
            lookup(put(m, k, v), o) == (if o == k {
                Some(v)
            } else {
                lookup(m, o)
            }),
{
    assert forall|m: Seq<(Text, Text)>, k: Text, v: Text, o: Text| #[trigger]
        lookup(put(m, k, v), o) == (if o == k {
            Some(v)
        } else {
            lookup(m, o)
        }) by {
        law_put_then_lookup(m, k, v, o);
    }
}

/// A container finds the workspace and the channels where they are mounted, the
/// marks of a CI run and what is known of the commit; every other variable is as
/// it was.
#[verifier::rlimit(40)]
pub proof fn law_environment_of_a_container(m: Seq<(Text, Text)>, github: ValueView, k: Text)
    ensures
        ({
            let e = container_vars(m, github);
            &&& lookup(e, "GITHUB_WORKSPACE"@) == Some("/github/workspace"@)
            &&& lookup(e, "CI"@) == Some("true"@)
            &&& lookup(e, "GITHUB_ACTIONS"@) == Some("true"@)
            &&& lookup(e, "RUNNER_OS"@) == Some("Linux"@)
            &&& lookup(e, "GITHUB_ENV"@) == Some("/github/file_commands/env"@)
            &&& lookup(e, "GITHUB_OUTPUT"@) == Some("/github/file_commands/output"@)
            &&& lookup(e, "GITHUB_PATH"@) == Some("/github/file_commands/path"@)
            &&& lookup(e, "GITHUB_STATE"@) == Some("/github/file_commands/state"@)
            &&& lookup(e, "GITHUB_SUMMARY"@) == Some("/github/file_commands/summary"@)
            &&& lookup(e, "GITHUB_SHA"@) == given_or(
                string_at(github, "sha"@),
                lookup(m, "GITHUB_SHA"@),
            )
            &&& lookup(e, "GITHUB_REF"@) == given_or(
                string_at(github, "ref"@),
                lookup(m, "GITHUB_REF"@),
            )
            &&& lookup(e, "GITHUB_REF_NAME"@) == given_or(
                string_at(github, "ref_name"@),
                lookup(m, "GITHUB_REF_NAME"@),
            )
            &&& lookup(e, "GITHUB_EVENT_NAME"@) == given_or(
                string_at(github, "event_name"@),
                lookup(m, "GITHUB_EVENT_NAME"@),
            )
            &&& k != "GITHUB_WORKSPACE"@ && k != "CI"@ && k != "GITHUB_ACTIONS"@ && k
                != "RUNNER_OS"@ && k != "GITHUB_ENV"@ && k != "GITHUB_OUTPUT"@ && k
                != "GITHUB_PATH"@ && k != "GITHUB_STATE"@ && k != "GITHUB_SUMMARY"@ && k
                != "GITHUB_SHA"@ && k != "GITHUB_REF"@ && k != "GITHUB_REF_NAME"@ && k
                != "GITHUB_EVENT_NAME"@ ==> lookup(e, k) == lookup(m, k)
        }),
{
    lemma_container_names();
    lemma_puts();
}

/// The variables of a Docker action are the environment, the inputs, its own
/// variables, filled, and those of a container, each over what comes before.
pub proof fn law_variables_of_a_docker_action(
    env: Seq<(Text, Text)>,
    inputs: Seq<(Text, Text)>,
    own: Seq<(Text, Text)>,
    s: SurroundingsView,
)
    ensures
        overlaid(
            put_all(env, input_vars(inputs)),
            own,
            plain_context(env, s, Seq::empty(), inputs, JobStatus::Success),
        ) matches Ok(m) ==> docker_vars(env, inputs, own, s) == Ok::<Seq<(Text, Text)>, Fault>(
            container_vars(m, s.github),
        ),
        overlaid(
            put_all(env, input_vars(inputs)),
            own,
            plain_context(env, s, Seq::empty(), inputs, JobStatus::Success),
        ) matches Err(f) ==> docker_vars(env, inputs, own, s) == Err::<Seq<(Text, Text)>, Fault>(f),
{
}

/// A container is started with the workspace and the channels mounted, each
/// variable passed, the entry point where there is one, and behind the image the
/// arguments, each filled and in order.
pub proof fn law_how_a_container_is_started(
    workspace: Text,
    channels: Text,
    env: Seq<(Text, Text)>,
    inputs: Seq<(Text, Text)>,
    own: Seq<(Text, Text)>,
    entry: Option<Text>,
    image: Text,
    args: Seq<Text>,
    s: SurroundingsView,
    vars: Seq<(Text, Text)>,
    line: Seq<Text>,
)
    requires
        docker_vars(env, inputs, own, s) == Ok::<Seq<(Text, Text)>, Fault>(vars),
        docker_line(workspace, channels, env, inputs, own, entry, image, args, s) == Ok::<
            Seq<Text>,
            Fault,
        >(line),
    ensures
        ({
            let n = vars.len() as int;
            let at: int = 8 + 2 * n + (if entry is Some {
                2int
            } else {
                0int
            });
            &&& line.len() == at + 1 + args.len()
            &&& line[0] == "run"@ && line[1] == "--rm"@ && line[2] == "-w"@ && line[3]
                == "/github/workspace"@
            &&& line[4] == "-v"@ && line[5] == workspace + ":/github/workspace"@
            &&& line[6] == "-v"@ && line[7] == channels + ":/github/file_commands"@
            &&& forall|i: int| 0 <= i < n ==> passes(line, 8 + 2 * i, #[trigger] vars[i])
            &&& entry matches Some(e) ==> line[8 + 2 * n] == "--entrypoint"@ && line[9 + 2 * n] == e
            &&& line[at] == image
            &&& forall|i: int|
                0 <= i < args.len() ==> interpolated(
                    #[trigger] args[i],
                    plain_context(env, s, Seq::empty(), inputs, JobStatus::Success),
                ) == Ok::<Text, Fault>(line[at + 1 + i])
        }),
{
    let c = docker_context(env, inputs, s);
    let a = filled_args(args, c)->Ok_0;
    lemma_filled_args(args, c);
    lemma_env_args(vars);
    let p1 = mount_args(workspace, channels);
    let p2 = env_args(vars);
    let p3 = entry_args(entry);
    assert(line == p1 + p2 + p3 + seq![image] + a);
    let n = vars.len() as int;
    assert forall|i: int| 0 <= i < n implies passes(line, 8 + 2 * i, #[trigger] vars[i]) by {
        assert(passes(p2, 2 * i, vars[i]));
        assert(line[8 + 2 * i] == p2[2 * i]);
        assert(line[9 + 2 * i] == p2[2 * i + 1]);
    }
    let at: int = 8 + 2 * n + p3.len();
    assert forall|i: int| 0 <= i < args.len() implies interpolated(#[trigger] args[i], c) == Ok::<
        Text,
        Fault,
    >(line[at + 1 + i]) by {
        assert(line[at + 1 + i] == a[i]);
    }
}

proof fn lemma_filled_args(args: Seq<Text>, c: ContextView)
    ensures
        filled_args(args, c) matches Ok(a) ==> a.len() == args.len() && forall|i: int|
            0 <= i < args.len() ==> interpolated(#[trigger] args[i], c) == Ok::<Text, Fault>(a[i]),
    decreases args.len(),
{
    if args.len() > 0 {
        let t = args.skip(1);
        lemma_filled_args(t, c);
        if let Ok(a) = filled_args(args, c) {
            let w = filled_args(t, c)->Ok_0;
            assert(a =~= seq![interpolated(args[0], c)->Ok_0] + w);
            assert forall|i: int| 0 <= i < args.len() implies interpolated(#[trigger] args[i], c)
                == Ok::<Text, Fault>(a[i]) by {
                if i > 0 {
                    assert(t[i - 1] == args[i]);
                    assert(a[i] == w[i - 1]);
                }
            }
        }
    }
}

/// Whether a variable is passed at a place of a command line.
pub open spec fn passes(line: Seq<Text>, at: int, e: (Text, Text)) -> bool {
    line[at] == "-e"@ && line[at + 1] == e.0 + "="@ + e.1
}

proof fn lemma_env_args(m: Seq<(Text, Text)>)
    ensures
        env_args(m).len() == 2 * m.len(),
        forall|i: int| 0 <= i < m.len() ==> passes(env_args(m), 2 * i, #[trigger] m[i]),
    decreases m.len(),
{
    if m.len() > 0 {
        let d = m.drop_last();
        lemma_env_args(d);
        let r = env_args(m);
        let q = env_args(d);
        assert(r =~= q.push("-e"@).push(m.last().0 + "="@ + m.last().1));
        assert forall|i: int| 0 <= i < m.len() implies passes(r, 2 * i, #[trigger] m[i]) by {
            if i < d.len() {
                assert(passes(q, 2 * i, d[i]));
                assert(r[2 * i] == q[2 * i]);
                assert(r[2 * i + 1] == q[2 * i + 1]);
            }
        }
    }
}

/// What an action hands back is what any step does; a fault of its variables
/// counts before one of its outputs.
pub proof fn law_what_an_action_hands_back(
    env: Text,
    path: Text,
    output: Text,
    printed: Seq<(Text, Text)>,
)
    ensures
        crate::envfile::key_values(crate::scan::lines_of(env)) matches Err(f)
            ==> crate::exec::action::action_handed_back(env, path, output, printed) == Err::<
            crate::exec::step::StepIoView,
            crate::envfile::EnvFileFault,
        >(f),
        crate::envfile::key_values(crate::scan::lines_of(env)) is Ok
            ==> crate::exec::action::action_handed_back(env, path, output, printed)
            == crate::exec::step::handed_back(env, path, output, printed),
{
}

/// Kinds of actions are told by name, and an image that is built is tagged with a
/// number in base sixteen.
pub proof fn law_names_of_kinds_and_tags(r: RunsView, hash: u64)
    ensures
        r is Composite ==> crate::exec::action::kind_name(r) == "composite"@,
        r is Node ==> crate::exec::action::kind_name(r) == "javascript"@,
        r is Docker ==> crate::exec::action::kind_name(r) == "docker"@,
        tag_text(hash) == "stepci-action:"@ + crate::numtext::digits(hash as nat, 16),
{
}

} // verus!
