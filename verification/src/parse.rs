//! From a workflow file, read leniently, to the [`crate::model`].
//!
//! Files are read into permissive raw structures, in which unknown keys are gone
//! and scalars are as they stood; the conversion does all normalization (scalars
//! to strings, string-or-list fields, the `run`/`uses` split) with errors that say
//! where they belong.

pub mod laws;

use crate::model::{
    map_list, step_views, ActionDef, ActionInput, ActionOutput, ActionView,
    Conditional, ConditionalView, Defaults, DefaultsView, InputView, Job, JobView, Matrix,
    MatrixView, Runs, RunsView, Step, StepAction, StepActionView, StepView, Strategy, StrategyView,
    Workflow, WorkflowView,
};
use crate::numtext::{decimal, usize_text};
use crate::results::{after_done, ahead, named};
use crate::scan::{blank, contains, holds, is_blank, trim, trimmed};
use crate::strmap::{map_entries, map_new, map_put, StrMap};
use crate::table::{collected, put_all};
use crate::tables::{
    dimension_list, dimension_new, dimension_put, input_list, input_new, input_put, job_list,
    job_new, job_put, output_list, output_new, output_put, DimensionMap,
};
use crate::text::{
    clone_opt, concat2, concat3, concat4, lowered, opt_text, str_eq, texts, to_lower, Text,
};
use vstd::prelude::*;

verus! {

/// A YAML value, as far as a workflow can hold one. A number is held as it is
/// displayed.
#[derive(Debug)]
pub enum Yaml {
    /// Nothing.
    Null,
    /// A boolean.
    Bool(bool),
    /// A number.
    Number(String),
    /// A string.
    Str(String),
    /// A list.
    Sequence(Vec<Yaml>),
    /// Keys and values.
    Mapping(Vec<(Yaml, Yaml)>),
    /// A value with a tag of its own.
    Tagged,
}

/// A workflow file as it is read.
#[derive(Debug)]
pub struct RawWorkflow {
    /// `name`
    pub name: Option<String>,
    /// `env`
    pub env: Vec<(String, Yaml)>,
    /// `defaults.run`
    pub defaults: RawDefaults,
    /// `jobs`
    pub jobs: Vec<(String, RawJob)>,
}

/// `defaults.run` as it is read.
#[derive(Debug, Default)]
pub struct RawDefaults {
    /// `shell`
    pub shell: Option<String>,
    /// `working-directory`
    pub working_directory: Option<String>,
}

/// A job as it is read.
#[derive(Debug)]
pub struct RawJob {
    /// `name`
    pub name: Option<String>,
    /// `runs-on`
    pub runs_on: Option<Yaml>,
    /// `needs`
    pub needs: Option<Yaml>,
    /// `env`
    pub env: Vec<(String, Yaml)>,
    /// `defaults.run`
    pub defaults: RawDefaults,
    /// `if`
    pub if_cond: Option<String>,
    /// `strategy`
    pub strategy: Option<RawStrategy>,
    /// `steps`
    pub steps: Vec<RawStep>,
}

/// A strategy as it is read.
#[derive(Debug)]
pub struct RawStrategy {
    /// `matrix`
    pub matrix: Option<Yaml>,
    /// `fail-fast`
    pub fail_fast: Option<Yaml>,
}

/// A step as it is read.
#[derive(Debug)]
pub struct RawStep {
    /// `id`
    pub id: Option<String>,
    /// `name`
    pub name: Option<String>,
    /// `if`
    pub if_cond: Option<String>,
    /// `env`
    pub env: Vec<(String, Yaml)>,
    /// `working-directory`
    pub working_directory: Option<String>,
    /// `shell`
    pub shell: Option<String>,
    /// `continue-on-error`
    pub continue_on_error: Option<Yaml>,
    /// `run`
    pub run: Option<String>,
    /// `uses`
    pub uses: Option<String>,
    /// `with`
    pub with: Vec<(String, Yaml)>,
}

/// An action file as it is read.
#[derive(Debug)]
pub struct RawAction {
    /// `inputs`
    pub inputs: Vec<(String, RawInput)>,
    /// `outputs`, by the `value` of each
    pub outputs: Vec<(String, Option<String>)>,
    /// `runs`
    pub runs: RawRuns,
}

/// An action's input as it is read.
#[derive(Debug)]
pub struct RawInput {
    /// `default`
    pub default: Option<Yaml>,
    /// `required`
    pub required: Option<Yaml>,
}

/// How an action runs, as it is read.
#[derive(Debug)]
pub struct RawRuns {
    /// `using`
    pub using: String,
    /// `steps`
    pub steps: Vec<RawStep>,
    /// `main`
    pub main: Option<String>,
    /// `image`
    pub image: Option<String>,
    /// `entrypoint`
    pub entrypoint: Option<String>,
    /// `args`
    pub args: Option<Yaml>,
    /// `env`
    pub env: Vec<(String, Yaml)>,
}

// ---------------------------------------------------------------------------
// Normalization
// ---------------------------------------------------------------------------

/// An error with what it belongs to in front.
pub open spec fn within<A>(place: Text, r: Result<A, Text>) -> Result<A, Text> {
    match r {
        Ok(a) => Ok(a),
        Err(e) => Err(place + ": "@ + e),
    }
}

/// An error with what it belongs to in front.
fn placed(place: &str, e: String) -> (r: String)
    ensures
        r@ == place@ + ": "@ + e@,
{
    concat3(place, ": ", e.as_str())
}

/// A name for a value's shape.
pub open spec fn shape_name(v: Yaml) -> Text {
    match v {
        Yaml::Null => "null"@,
        Yaml::Bool(_) => "boolean"@,
        Yaml::Number(_) => "number"@,
        Yaml::Str(_) => "string"@,
        Yaml::Sequence(_) => "sequence"@,
        Yaml::Mapping(_) => "mapping"@,
        Yaml::Tagged => "tagged value"@,
    }
}

/// A name for a value's shape, for error messages.
pub fn kind_of(v: &Yaml) -> (r: &'static str)
    ensures
        r@ == shape_name(*v),
{
    match v {
        Yaml::Null => "null",
        Yaml::Bool(_) => "boolean",
        Yaml::Number(_) => "number",
        Yaml::Str(_) => "string",
        Yaml::Sequence(_) => "sequence",
        Yaml::Mapping(_) => "mapping",
        Yaml::Tagged => "tagged value",
    }
}

/// A scalar as a string.
pub open spec fn scalar_text(v: Yaml) -> Result<Text, Text> {
    match v {
        Yaml::Null => Ok(Seq::empty()),
        Yaml::Bool(b) => Ok(
            if b {
                "true"@
            } else {
                "false"@
            },
        ),
        Yaml::Number(n) => Ok(n@),
        Yaml::Str(s) => Ok(s@),
        _ => Err("expected a scalar value, found a "@ + shape_name(v)),
    }
}

/// A text result over views.
pub open spec fn text_of(r: Result<String, String>) -> Result<Text, Text> {
    match r {
        Ok(t) => Ok(t@),
        Err(e) => Err(e@),
    }
}

/// Coerce a YAML scalar into a string. What is not a scalar is an error.
pub fn scalar_to_string(v: &Yaml) -> (r: Result<String, String>)
    ensures
        text_of(r) == scalar_text(*v),
{
    match v {
        Yaml::Null => {
            let e = String::new();
            assert(e@ =~= Seq::empty());
            Ok(e)
        },
        Yaml::Bool(b) => Ok(
            if *b {
                "true".to_owned()
            } else {
                "false".to_owned()
            },
        ),
        Yaml::Number(n) => Ok(n.clone()),
        Yaml::Str(s) => Ok(s.clone()),
        _ => Err(concat2("expected a scalar value, found a ", kind_of(v))),
    }
}

/// The scalars of a map as strings, in order.
pub open spec fn scalar_pairs(m: Seq<(String, Yaml)>, place: Text) -> Result<
    Seq<(Text, Text)>,
    Text,
>
    decreases m.len(),
{
    if m.len() == 0 {
        Ok(Seq::empty())
    } else {
        ahead(
            named(
                m[0].0@,
                within(place + " value for `"@ + m[0].0@ + "`"@, scalar_text(m[0].1)),
            ),
            scalar_pairs(m.skip(1), place),
        )
    }
}

/// A map of scalars as a map of strings.
pub open spec fn scalar_table(m: Seq<(String, Yaml)>, place: Text) -> Result<
    Seq<(Text, Text)>,
    Text,
> {
    match scalar_pairs(m, place) {
        Ok(p) => Ok(collected(p)),
        Err(e) => Err(e),
    }
}

/// A map result over views.
pub open spec fn map_of(r: Result<StrMap, String>) -> Result<Seq<(Text, Text)>, Text> {
    match r {
        Ok(m) => Ok(map_entries(m)),
        Err(e) => Err(e@),
    }
}

/// Convert a map of YAML scalars into a map of strings, preserving order.
pub fn scalar_map(m: &Vec<(String, Yaml)>, place: &str) -> (r: Result<StrMap, String>)
    ensures
        map_of(r) == scalar_table(m@, place@),
{
    let mut out = map_new();
    let ghost mut done = Seq::<(Text, Text)>::empty();
    let mut i: usize = 0;
    proof {
        assert(m@.skip(0) =~= m@);
        match scalar_pairs(m@, place@) {
            Ok(t) => {
                assert(done + t =~= t);
            },
            Err(_) => {},
        }
    }
    while i < m.len()
        invariant
            i <= m@.len(),
            map_entries(out) == collected(done),
            scalar_pairs(m@, place@) == after_done(
                done,
                scalar_pairs(m@.skip(i as int), place@),
            ),
        decreases m@.len() - i,
    {
        let ghost rest = m@.skip(i as int);
        assert(rest[0] == m@[i as int]);
        assert(rest.skip(1) =~= m@.skip(i + 1));
        match scalar_to_string(&m[i].1) {
            Err(e) => {
                let at = concat4(place, " value for `", m[i].0.as_str(), "`");
                return Err(placed(at.as_str(), e));
            },
            Ok(s) => {
                let k = m[i].0.clone();
                let ghost kv = (k@, s@);
                map_put(&mut out, k, s);
                proof {
                    let was = done;
                    done = done.push(kv);
                    assert(done.drop_last() =~= was);
                    assert(map_entries(out) == collected(done));
                    match scalar_pairs(rest.skip(1), place@) {
                        Ok(t) => {
                            assert(was + (seq![kv] + t) =~= done + t);
                        },
                        Err(_) => {},
                    }
                }
            },
        }
        i += 1;
    }
    assert(done + Seq::<(Text, Text)>::empty() =~= done);
    Ok(out)
}

/// The scalars of a list as strings.
pub open spec fn scalar_list(s: Seq<Yaml>) -> Result<Seq<Text>, Text>
    decreases s.len(),
{
    if s.len() == 0 {
        Ok(Seq::empty())
    } else {
        ahead(scalar_text(s[0]), scalar_list(s.skip(1)))
    }
}

/// A list result over views.
pub open spec fn list_of(r: Result<Vec<String>, String>) -> Result<Seq<Text>, Text> {
    match r {
        Ok(v) => Ok(texts(v@)),
        Err(e) => Err(e@),
    }
}

/// The scalars of a list as strings.
fn scalars(s: &Vec<Yaml>) -> (r: Result<Vec<String>, String>)
    ensures
        list_of(r) == scalar_list(s@),
{
    let mut out: Vec<String> = Vec::new();
    let mut i: usize = 0;
    proof {
        assert(s@.skip(0) =~= s@);
        assert(texts(out@) =~= Seq::empty());
        match scalar_list(s@) {
            Ok(t) => {
                assert(Seq::<Text>::empty() + t =~= t);
            },
            Err(_) => {},
        }
    }
    while i < s.len()
        invariant
            i <= s@.len(),
            scalar_list(s@) == after_done(texts(out@), scalar_list(s@.skip(i as int))),
        decreases s@.len() - i,
    {
        let ghost rest = s@.skip(i as int);
        let ghost done = texts(out@);
        assert(rest.skip(1) =~= s@.skip(i + 1));
        match scalar_to_string(&s[i]) {
            Err(e) => {
                return Err(e);
            },
            Ok(t) => {
                out.push(t);
                proof {
                    assert(texts(out@) =~= done + seq![t@]);
                    match scalar_list(rest.skip(1)) {
                        Ok(more) => {
                            assert(done + (seq![t@] + more) =~= texts(out@) + more);
                        },
                        Err(_) => {},
                    }
                }
            },
        }
        i += 1;
    }
    assert(texts(out@) + Seq::<Text>::empty() =~= texts(out@));
    Ok(out)
}

/// A string or a list as a list.
pub open spec fn listed(v: Option<Yaml>) -> Result<Seq<Text>, Text> {
    match v {
        None => Ok(Seq::empty()),
        Some(Yaml::Null) => Ok(Seq::empty()),
        Some(Yaml::Str(s)) => Ok(seq![s@]),
        Some(Yaml::Sequence(s)) => scalar_list(s@),
        Some(other) => Err("expected a string or list, found a "@ + shape_name(other)),
    }
}

/// Normalize a `string | [string]` field, such as `needs`, into a list.
pub fn string_or_list(v: &Option<Yaml>) -> (r: Result<Vec<String>, String>)
    ensures
        list_of(r) == listed(*v),
{
    match v {
        None => {
            let e: Vec<String> = Vec::new();
            assert(texts(e@) =~= Seq::empty());
            Ok(e)
        },
        Some(Yaml::Null) => {
            let e: Vec<String> = Vec::new();
            assert(texts(e@) =~= Seq::empty());
            Ok(e)
        },
        Some(Yaml::Str(s)) => {
            let mut l: Vec<String> = Vec::new();
            l.push(s.clone());
            assert(texts(l@) =~= seq![s@]);
            Ok(l)
        },
        Some(Yaml::Sequence(s)) => scalars(s),
        Some(other) => Err(concat2("expected a string or list, found a ", kind_of(other))),
    }
}

/// The scalars among a list, as strings.
pub open spec fn scalars_among(s: Seq<Yaml>) -> Seq<Text>
    decreases s.len(),
{
    if s.len() == 0 {
        Seq::empty()
    } else {
        let rest = scalars_among(s.drop_last());
        match scalar_text(s.last()) {
            Ok(t) => rest.push(t),
            Err(_) => rest,
        }
    }
}

/// A value is the string `k`.
pub open spec fn is_key(v: Yaml, k: Text) -> bool {
    v matches Yaml::Str(s) && s@ == k
}

/// Where a key of a mapping stands.
pub open spec fn key_at(m: Seq<(Yaml, Yaml)>, k: Text) -> Option<int>
    decreases m.len(),
{
    if m.len() == 0 {
        None
    } else if is_key(m[0].0, k) {
        Some(0)
    } else {
        match key_at(m.skip(1), k) {
            Some(i) => Some(i + 1),
            None => None,
        }
    }
}

/// Where a key of a mapping stands.
fn find_key(m: &Vec<(Yaml, Yaml)>, k: &str) -> (r: Option<usize>)
    ensures
        (match r {
            Some(i) => Some(i as int),
            None => None,
        }) == key_at(m@, k@),
        r matches Some(i) ==> i < m@.len(),
{
    let mut i: usize = 0;
    assert(m@.skip(0) =~= m@);
    while i < m.len()
        invariant
            i <= m@.len(),
            key_at(m@, k@) == (match key_at(m@.skip(i as int), k@) {
                Some(j) => Some(j + i),
                None => None,
            }),
        decreases m@.len() - i,
    {
        assert(m@.skip(i as int).skip(1) =~= m@.skip(i + 1));
        match &m[i].0 {
            Yaml::Str(s) => {
                if str_eq(s.as_str(), k) {
                    return Some(i);
                }
            },
            _ => {},
        }
        i += 1;
    }
    None
}

/// The labels that `runs-on` names: a string, a list, the labels of a mapping, or
/// else its group.
pub open spec fn runner_labels(v: Yaml) -> Seq<Text>
    decreases v,
{
    match v {
        Yaml::Str(s) => seq![s@],
        Yaml::Sequence(s) => scalars_among(s@),
        Yaml::Mapping(m) => match key_at(m@, "labels"@) {
            Some(i) => if 0 <= i < m@.len() {
                runner_labels(m@[i].1)
            } else {
                Seq::empty()
            },
            None => match key_at(m@, "group"@) {
                Some(i) => match scalar_text(m@[i].1) {
                    Ok(t) => seq![t],
                    Err(_) => Seq::empty(),
                },
                None => Seq::empty(),
            },
        },
        _ => Seq::empty(),
    }
}

/// The labels of an optional `runs-on`.
pub open spec fn opt_labels(v: Option<Yaml>) -> Seq<Text> {
    match v {
        Some(y) => runner_labels(y),
        None => Seq::empty(),
    }
}

/// No texts.
fn no_texts() -> (r: Vec<String>)
    ensures
        texts(r@) == Seq::<Text>::empty(),
{
    let e: Vec<String> = Vec::new();
    assert(texts(e@) =~= Seq::empty());
    e
}

/// One text.
fn one_text(s: String) -> (r: Vec<String>)
    ensures
        texts(r@) == seq![s@],
{
    let mut l: Vec<String> = Vec::new();
    l.push(s);
    assert(texts(l@) =~= seq![s@]);
    l
}

/// Best-effort normalization of `runs-on`. It never fails: an unrecognized shape
/// yields nothing.
pub fn normalize_runs_on(v: &Yaml) -> (r: Vec<String>)
    ensures
        texts(r@) == runner_labels(*v),
    decreases *v,
{
    match v {
        Yaml::Str(s) => one_text(s.clone()),
        Yaml::Sequence(s) => {
            let mut out: Vec<String> = Vec::new();
            let mut i: usize = 0;
            assert(s@.take(0) =~= Seq::empty());
            assert(texts(out@) =~= Seq::empty());
            while i < s.len()
                invariant
                    i <= s@.len(),
                    texts(out@) == scalars_among(s@.take(i as int)),
                decreases s@.len() - i,
            {
                assert(s@.take(i + 1).drop_last() =~= s@.take(i as int));
                match scalar_to_string(&s[i]) {
                    Ok(t) => {
                        let ghost done = texts(out@);
                        out.push(t);
                        assert(texts(out@) =~= done.push(t@));
                    },
                    Err(_) => {},
                }
                i += 1;
            }
            assert(s@.take(i as int) =~= s@);
            out
        },
        Yaml::Mapping(m) => match find_key(m, "labels") {
            Some(i) => {
                assert(decreases_to!(*v => v->Mapping_0));
                assert(decreases_to!(m@ => m@[i as int]));
                assert(decreases_to!(m@[i as int] => m@[i as int].1));
                normalize_runs_on(&m[i].1)
            },
            None => match find_key(m, "group") {
                Some(i) => match scalar_to_string(&m[i].1) {
                    Ok(t) => one_text(t),
                    Err(_) => no_texts(),
                },
                None => no_texts(),
            },
        },
        _ => no_texts(),
    }
}

/// A string in a place for a boolean or an expression: `${{ }}` makes it an
/// expression, the spellings of booleans make it a boolean, and anything else is
/// an expression too.
pub open spec fn spelled(s: Text) -> ConditionalView {
    let w = lowered(trimmed(s));
    if holds(s, "${{"@) {
        ConditionalView::Expr(s)
    } else if w == "true"@ || w == "yes"@ || w == "on"@ || w == "y"@ {
        ConditionalView::Bool(true)
    } else if w == "false"@ || w == "no"@ || w == "off"@ || w == "n"@ {
        ConditionalView::Bool(false)
    } else {
        ConditionalView::Expr(s)
    }
}

/// Classify a string in a boolean-or-expression slot.
pub fn bool_or_expr(s: String) -> (r: Conditional)
    ensures
        r@ == spelled(s@),
{
    if contains(s.as_str(), "${{") {
        return Conditional::Expr(s);
    }
    let w = to_lower(trim(s.as_str()).as_str());
    let is = |t: &str| -> (b: bool)
        ensures
            b == (w@ == t@),
        { str_eq(w.as_str(), t) };
    if is("true") || is("yes") || is("on") || is("y") {
        Conditional::Bool(true)
    } else if is("false") || is("no") || is("off") || is("n") {
        Conditional::Bool(false)
    } else {
        Conditional::Expr(s)
    }
}

/// A value in a place for a boolean or an expression.
pub open spec fn conditional(v: Option<Yaml>) -> Result<ConditionalView, Text> {
    match v {
        None => Ok(ConditionalView::Bool(false)),
        Some(Yaml::Null) => Ok(ConditionalView::Bool(false)),
        Some(Yaml::Bool(b)) => Ok(ConditionalView::Bool(b)),
        Some(Yaml::Str(s)) => Ok(spelled(s@)),
        Some(other) => Err(
            "must be a boolean or an expression, found a "@ + shape_name(other),
        ),
    }
}

/// Normalize `continue-on-error`, which may be a boolean or an expression. The
/// YAML 1.1 spellings (`yes`, `on` and the like) are booleans.
pub fn normalize_conditional(v: &Option<Yaml>) -> (r: Result<Conditional, String>)
    ensures
        (match r {
            Ok(c) => Ok(c@),
            Err(e) => Err(e@),
        }) == conditional(*v),
{
    match v {
        None => Ok(Conditional::Bool(false)),
        Some(Yaml::Null) => Ok(Conditional::Bool(false)),
        Some(Yaml::Bool(b)) => Ok(Conditional::Bool(*b)),
        Some(Yaml::Str(s)) => Ok(bool_or_expr(s.clone())),
        Some(other) => Err(
            concat2("must be a boolean or an expression, found a ", kind_of(other)),
        ),
    }
}

// ---------------------------------------------------------------------------
// Steps
// ---------------------------------------------------------------------------

/// What a step does; it has exactly one of `run` and `uses`.
pub open spec fn action_of(r: RawStep) -> Result<StepActionView, Text> {
    match (r.run, r.uses) {
        (Some(script), None) => Ok(StepActionView::Run(script@)),
        (None, Some(action)) => match scalar_table(r.with@, "`with`"@) {
            Ok(w) => Ok(StepActionView::Uses(action@, w)),
            Err(e) => Err(e),
        },
        (Some(_), Some(_)) => Err(
            "has both `run` and `uses`; a step must have exactly one"@,
        ),
        (None, None) => Err("has neither `run` nor `uses`; a step must have exactly one"@),
    }
}

/// A step, converted.
pub open spec fn step_of(r: RawStep) -> Result<StepView, Text> {
    match action_of(r) {
        Err(e) => Err(e),
        Ok(action) => match scalar_table(r.env@, "step `env`"@) {
            Err(e) => Err(e),
            Ok(env) => match within(
                "invalid `continue-on-error`"@,
                conditional(r.continue_on_error),
            ) {
                Err(e) => Err(e),
                Ok(c) => Ok(
                    StepView {
                        id: opt_text(r.id),
                        name: opt_text(r.name),
                        if_cond: opt_text(r.if_cond),
                        env,
                        working_directory: opt_text(r.working_directory),
                        shell: opt_text(r.shell),
                        continue_on_error: c,
                        action,
                    },
                ),
            },
        },
    }
}

/// Steps, converted; `from` of them come before.
pub open spec fn steps_of(s: Seq<RawStep>, from: nat) -> Result<Seq<StepView>, Text>
    decreases s.len(),
{
    if s.len() == 0 {
        Ok(Seq::empty())
    } else {
        ahead(
            within("in step "@ + decimal(from + 1), step_of(s[0])),
            steps_of(s.skip(1), from + 1),
        )
    }
}

impl RawStep {
    /// What the step does.
    fn into_action(&self) -> (r: Result<StepAction, String>)
        ensures
            (match r {
                Ok(a) => Ok(a@),
                Err(e) => Err(e@),
            }) == action_of(*self),
    {
        match (&self.run, &self.uses) {
            (Some(script), None) => Ok(StepAction::Run { script: script.clone() }),
            (None, Some(action)) => match scalar_map(&self.with, "`with`") {
                Ok(with) => Ok(StepAction::Uses { action: action.clone(), with }),
                Err(e) => Err(e),
            },
            (Some(_), Some(_)) => Err(
                "has both `run` and `uses`; a step must have exactly one".to_owned(),
            ),
            (None, None) => Err(
                "has neither `run` nor `uses`; a step must have exactly one".to_owned(),
            ),
        }
    }

    /// Convert the step.
    pub fn into_step(&self) -> (r: Result<Step, String>)
        ensures
            (match r {
                Ok(s) => Ok(s@),
                Err(e) => Err(e@),
            }) == step_of(*self),
    {
        let action = match self.into_action() {
            Ok(a) => a,
            Err(e) => {
                return Err(e);
            },
        };
        let env = match scalar_map(&self.env, "step `env`") {
            Ok(m) => m,
            Err(e) => {
                return Err(e);
            },
        };
        let continue_on_error = match normalize_conditional(&self.continue_on_error) {
            Ok(c) => c,
            Err(e) => {
                return Err(placed("invalid `continue-on-error`", e));
            },
        };
        Ok(
            Step {
                id: clone_opt(&self.id),
                name: clone_opt(&self.name),
                if_cond: clone_opt(&self.if_cond),
                env,
                working_directory: clone_opt(&self.working_directory),
                shell: clone_opt(&self.shell),
                continue_on_error,
                action,
            },
        )
    }
}

/// Convert steps, in order.
fn into_steps(s: &Vec<RawStep>) -> (r: Result<Vec<Step>, String>)
    ensures
        (match r {
            Ok(v) => Ok(step_views(v@)),
            Err(e) => Err(e@),
        }) == steps_of(s@, 0),
{
    let mut out: Vec<Step> = Vec::new();
    let n = s.len();
    let mut i: usize = 0;
    proof {
        assert(s@.skip(0) =~= s@);
        assert(step_views(out@) =~= Seq::empty());
        match steps_of(s@, 0) {
            Ok(t) => {
                assert(Seq::<StepView>::empty() + t =~= t);
            },
            Err(_) => {},
        }
    }
    while i < n
        invariant
            i <= n,
            n == s@.len(),
            steps_of(s@, 0) == after_done(
                step_views(out@),
                steps_of(s@.skip(i as int), i as nat),
            ),
        decreases n - i,
    {
        let ghost rest = s@.skip(i as int);
        let ghost done = step_views(out@);
        assert(rest.skip(1) =~= s@.skip(i + 1));
        match s[i].into_step() {
            Err(e) => {
                let at = concat2("in step ", usize_text(i + 1).as_str());
                return Err(placed(at.as_str(), e));
            },
            Ok(x) => {
                let ghost xv = x@;
                out.push(x);
                proof {
                    assert(step_views(out@) =~= done + seq![xv]);
                    match steps_of(rest.skip(1), (i + 1) as nat) {
                        Ok(more) => {
                            assert(done + (seq![xv] + more) =~= step_views(out@) + more);
                        },
                        Err(_) => {},
                    }
                }
            },
        }
        i += 1;
    }
    assert(step_views(out@) + Seq::<StepView>::empty() =~= step_views(out@));
    Ok(out)
}

// ---------------------------------------------------------------------------
// Strategies
// ---------------------------------------------------------------------------

/// A mapping of scalars as a table of strings.
pub open spec fn mapping_pairs(m: Seq<(Yaml, Yaml)>) -> Result<Seq<(Text, Text)>, Text>
    decreases m.len(),
{
    if m.len() == 0 {
        Ok(Seq::empty())
    } else {
        match scalar_text(m[0].0) {
            Err(e) => Err(e),
            Ok(k) => ahead(named(k, scalar_text(m[0].1)), mapping_pairs(m.skip(1))),
        }
    }
}

/// A combination of a matrix.
pub open spec fn combination(v: Yaml) -> Result<Seq<(Text, Text)>, Text> {
    match v {
        Yaml::Mapping(m) => match mapping_pairs(m@) {
            Ok(p) => Ok(collected(p)),
            Err(e) => Err(e),
        },
        other => Err("expected a mapping, found a "@ + shape_name(other)),
    }
}

/// The combinations of a list.
pub open spec fn combinations(s: Seq<Yaml>) -> Result<Seq<Seq<(Text, Text)>>, Text>
    decreases s.len(),
{
    if s.len() == 0 {
        Ok(Seq::empty())
    } else {
        ahead(combination(s[0]), combinations(s.skip(1)))
    }
}

/// The combinations under a key of a matrix.
pub open spec fn combinations_at(m: Seq<(Yaml, Yaml)>, k: Text) -> Result<
    Seq<Seq<(Text, Text)>>,
    Text,
> {
    match key_at(m, k) {
        None => Ok(Seq::empty()),
        Some(i) => within(
            "invalid matrix `"@ + k + "`"@,
            match m[i].1 {
                Yaml::Sequence(s) => combinations(s@),
                other => Err("expected a list, found a "@ + shape_name(other)),
            },
        ),
    }
}

/// The dimensions of a matrix: its keys but for `include` and `exclude`.
pub open spec fn dimensions(m: Seq<(Yaml, Yaml)>) -> Result<Seq<(Text, Seq<Text>)>, Text>
    decreases m.len(),
{
    if m.len() == 0 {
        Ok(Seq::empty())
    } else if is_key(m[0].0, "include"@) || is_key(m[0].0, "exclude"@) {
        dimensions(m.skip(1))
    } else {
        match scalar_text(m[0].0) {
            Err(e) => Err(e),
            Ok(k) => ahead(
                named(k, within("invalid matrix `"@ + k + "`"@, listed(Some(m[0].1)))),
                dimensions(m.skip(1)),
            ),
        }
    }
}

/// A matrix, converted.
pub open spec fn matrix_of(v: Yaml) -> Result<MatrixView, Text> {
    match v {
        Yaml::Mapping(m) => match dimensions(m@) {
            Err(e) => Err(e),
            Ok(d) => match combinations_at(m@, "include"@) {
                Err(e) => Err(e),
                Ok(inc) => match combinations_at(m@, "exclude"@) {
                    Err(e) => Err(e),
                    Ok(exc) => Ok(
                        MatrixView {
                            dimensions: collected(d),
                            include_entries: inc,
                            exclude: exc,
                        },
                    ),
                },
            },
        },
        other => Err("expected a mapping, found a "@ + shape_name(other)),
    }
}

/// Whether a failure stops a matrix: it does unless `fail-fast` says otherwise.
pub open spec fn fails_fast(v: Option<Yaml>) -> Result<bool, Text> {
    match v {
        None => Ok(true),
        Some(Yaml::Null) => Ok(true),
        _ => match conditional(v) {
            Ok(ConditionalView::Bool(b)) => Ok(b),
            Ok(ConditionalView::Expr(_)) => Ok(true),
            Err(e) => Err(e),
        },
    }
}

/// A strategy, converted.
pub open spec fn strategy_of(r: RawStrategy) -> Result<StrategyView, Text> {
    match fails_fast(r.fail_fast) {
        Err(e) => Err(e),
        Ok(fail_fast) => match r.matrix {
            None => Ok(StrategyView { matrix: None, fail_fast }),
            Some(y) => match matrix_of(y) {
                Err(e) => Err(e),
                Ok(m) => Ok(StrategyView { matrix: Some(m), fail_fast }),
            },
        },
    }
}

/// An optional strategy, converted.
pub open spec fn opt_strategy_of(r: Option<RawStrategy>) -> Result<Option<StrategyView>, Text> {
    match r {
        None => Ok(None),
        Some(s) => match within("invalid `strategy`"@, strategy_of(s)) {
            Ok(v) => Ok(Some(v)),
            Err(e) => Err(e),
        },
    }
}

/// Convert a combination of a matrix.
fn read_combination(v: &Yaml) -> (r: Result<StrMap, String>)
    ensures
        map_of(r) == combination(*v),
{
    let m = match v {
        Yaml::Mapping(m) => m,
        other => {
            return Err(concat2("expected a mapping, found a ", kind_of(other)));
        },
    };
    let mut out = map_new();
    let ghost mut done = Seq::<(Text, Text)>::empty();
    let mut i: usize = 0;
    proof {
        assert(m@.skip(0) =~= m@);
        match mapping_pairs(m@) {
            Ok(t) => {
                assert(done + t =~= t);
            },
            Err(_) => {},
        }
    }
    while i < m.len()
        invariant
            *v == Yaml::Mapping(*m),
            i <= m@.len(),
            map_entries(out) == collected(done),
            mapping_pairs(m@) == after_done(done, mapping_pairs(m@.skip(i as int))),
        decreases m@.len() - i,
    {
        let ghost rest = m@.skip(i as int);
        assert(rest[0] == m@[i as int]);
        assert(rest.skip(1) =~= m@.skip(i + 1));
        let k = match scalar_to_string(&m[i].0) {
            Ok(k) => k,
            Err(e) => {
                return Err(e);
            },
        };
        match scalar_to_string(&m[i].1) {
            Err(e) => {
                return Err(e);
            },
            Ok(s) => {
                let ghost kv = (k@, s@);
                map_put(&mut out, k, s);
                proof {
                    let was = done;
                    done = done.push(kv);
                    assert(done.drop_last() =~= was);
                    assert(map_entries(out) == collected(done));
                    match mapping_pairs(rest.skip(1)) {
                        Ok(t) => {
                            assert(was + (seq![kv] + t) =~= done + t);
                        },
                        Err(_) => {},
                    }
                }
            },
        }
        i += 1;
    }
    assert(done + Seq::<(Text, Text)>::empty() =~= done);
    Ok(out)
}

/// Convert the combinations of a list.
fn read_combinations(s: &Vec<Yaml>) -> (r: Result<Vec<StrMap>, String>)
    ensures
        (match r {
            Ok(v) => Ok(map_list(v@)),
            Err(e) => Err(e@),
        }) == combinations(s@),
{
    let mut out: Vec<StrMap> = Vec::new();
    let mut i: usize = 0;
    proof {
        assert(s@.skip(0) =~= s@);
        assert(map_list(out@) =~= Seq::empty());
        match combinations(s@) {
            Ok(t) => {
                assert(Seq::<Seq<(Text, Text)>>::empty() + t =~= t);
            },
            Err(_) => {},
        }
    }
    while i < s.len()
        invariant
            i <= s@.len(),
            combinations(s@) == after_done(map_list(out@), combinations(s@.skip(i as int))),
        decreases s@.len() - i,
    {
        let ghost rest = s@.skip(i as int);
        let ghost done = map_list(out@);
        assert(rest.skip(1) =~= s@.skip(i + 1));
        match read_combination(&s[i]) {
            Err(e) => {
                return Err(e);
            },
            Ok(m) => {
                let ghost mv = map_entries(m);
                out.push(m);
                proof {
                    assert(map_list(out@) =~= done + seq![mv]);
                    match combinations(rest.skip(1)) {
                        Ok(more) => {
                            assert(done + (seq![mv] + more) =~= map_list(out@) + more);
                        },
                        Err(_) => {},
                    }
                }
            },
        }
        i += 1;
    }
    assert(map_list(out@) + Seq::<Seq<(Text, Text)>>::empty() =~= map_list(out@));
    Ok(out)
}

/// Convert the combinations under a key of a matrix.
fn read_combinations_at(m: &Vec<(Yaml, Yaml)>, k: &str) -> (r: Result<Vec<StrMap>, String>)
    ensures
        (match r {
            Ok(v) => Ok(map_list(v@)),
            Err(e) => Err(e@),
        }) == combinations_at(m@, k@),
{
    match find_key(m, k) {
        None => {
            let none: Vec<StrMap> = Vec::new();
            assert(map_list(none@) =~= Seq::empty());
            Ok(none)
        },
        Some(i) => {
            let at = concat3("invalid matrix `", k, "`");
            match &m[i].1 {
                Yaml::Sequence(s) => match read_combinations(s) {
                    Ok(v) => Ok(v),
                    Err(e) => Err(placed(at.as_str(), e)),
                },
                other => Err(
                    placed(
                        at.as_str(),
                        concat2("expected a list, found a ", kind_of(other)),
                    ),
                ),
            }
        },
    }
}

/// Whether a value is the string `k`.
fn key_is(v: &Yaml, k: &str) -> (r: bool)
    ensures
        r == is_key(*v, k@),
{
    match v {
        Yaml::Str(s) => str_eq(s.as_str(), k),
        _ => false,
    }
}

/// A list in the place of one value, as one.
fn read_list(v: &Yaml) -> (r: Result<Vec<String>, String>)
    ensures
        list_of(r) == listed(Some(*v)),
{
    match v {
        Yaml::Null => Ok(no_texts()),
        Yaml::Str(s) => Ok(one_text(s.clone())),
        Yaml::Sequence(s) => scalars(s),
        other => Err(concat2("expected a string or list, found a ", kind_of(other))),
    }
}

/// Convert the dimensions of a matrix.
fn read_dimensions(m: &Vec<(Yaml, Yaml)>) -> (r: Result<DimensionMap, String>)
    ensures
        (match r {
            Ok(v) => Ok(dimension_list(v)),
            Err(e) => Err(e@),
        }) == (match dimensions(m@) {
            Ok(d) => Ok(collected(d)),
            Err(e) => Err(e),
        }),
{
    let mut out = dimension_new();
    let ghost mut done = Seq::<(Text, Seq<Text>)>::empty();
    let mut i: usize = 0;
    proof {
        assert(m@.skip(0) =~= m@);
        match dimensions(m@) {
            Ok(t) => {
                assert(done + t =~= t);
            },
            Err(_) => {},
        }
    }
    while i < m.len()
        invariant
            i <= m@.len(),
            dimension_list(out) == collected(done),
            dimensions(m@) == after_done(done, dimensions(m@.skip(i as int))),
        decreases m@.len() - i,
    {
        let ghost rest = m@.skip(i as int);
        assert(rest[0] == m@[i as int]);
        assert(rest.skip(1) =~= m@.skip(i + 1));
        if !(key_is(&m[i].0, "include") || key_is(&m[i].0, "exclude")) {
            let k = match scalar_to_string(&m[i].0) {
                Ok(k) => k,
                Err(e) => {
                    return Err(e);
                },
            };
            match read_list(&m[i].1) {
                Err(e) => {
                    let at = concat3("invalid matrix `", k.as_str(), "`");
                    return Err(placed(at.as_str(), e));
                },
                Ok(v) => {
                    let ghost kv = (k@, texts(v@));
                    dimension_put(&mut out, k, v);
                    proof {
                        let was = done;
                        done = done.push(kv);
                        assert(done.drop_last() =~= was);
                        assert(dimension_list(out) == collected(done));
                        match dimensions(rest.skip(1)) {
                            Ok(t) => {
                                assert(was + (seq![kv] + t) =~= done + t);
                            },
                            Err(_) => {},
                        }
                    }
                },
            }
        }
        i += 1;
    }
    assert(done + Seq::<(Text, Seq<Text>)>::empty() =~= done);
    Ok(out)
}

/// Convert a matrix.
fn read_matrix(v: &Yaml) -> (r: Result<Matrix, String>)
    ensures
        (match r {
            Ok(m) => Ok(m@),
            Err(e) => Err(e@),
        }) == matrix_of(*v),
{
    match v {
        Yaml::Mapping(m) => {
            let dims = match read_dimensions(m) {
                Ok(d) => d,
                Err(e) => {
                    return Err(e);
                },
            };
            let inc = match read_combinations_at(m, "include") {
                Ok(c) => c,
                Err(e) => {
                    return Err(e);
                },
            };
            let exc = match read_combinations_at(m, "exclude") {
                Ok(c) => c,
                Err(e) => {
                    return Err(e);
                },
            };
            Ok(Matrix { dimensions: dims, include_entries: inc, exclude: exc })
        },
        other => Err(concat2("expected a mapping, found a ", kind_of(other))),
    }
}

impl RawStrategy {
    /// Convert the strategy.
    pub fn into_strategy(&self) -> (r: Result<Strategy, String>)
        ensures
            (match r {
                Ok(s) => Ok(s@),
                Err(e) => Err(e@),
            }) == strategy_of(*self),
    {
        let fail_fast: bool = match &self.fail_fast {
            None => true,
            Some(Yaml::Null) => true,
            _ => match normalize_conditional(&self.fail_fast) {
                Ok(Conditional::Bool(b)) => b,
                Ok(Conditional::Expr(_)) => true,
                Err(e) => {
                    return Err(e);
                },
            },
        };
        match &self.matrix {
            None => Ok(Strategy { matrix: None, fail_fast }),
            Some(y) => match read_matrix(y) {
                Ok(m) => Ok(Strategy { matrix: Some(m), fail_fast }),
                Err(e) => Err(e),
            },
        }
    }
}

// ---------------------------------------------------------------------------
// Jobs and workflows
// ---------------------------------------------------------------------------

/// Default settings, converted.
pub open spec fn defaults_of(r: RawDefaults) -> DefaultsView {
    DefaultsView {
        shell: opt_text(r.shell),
        working_directory: opt_text(r.working_directory),
    }
}

impl RawDefaults {
    /// Convert the settings.
    pub fn into_defaults(&self) -> (r: Defaults)
        ensures
            r@ == defaults_of(*self),
    {
        Defaults {
            shell: clone_opt(&self.shell),
            working_directory: clone_opt(&self.working_directory),
        }
    }
}

/// A job, converted.
pub open spec fn job_of(r: RawJob, id: Text) -> Result<JobView, Text> {
    match steps_of(r.steps@, 0) {
        Err(e) => Err(e),
        Ok(steps) => match within("invalid `needs`"@, listed(r.needs)) {
            Err(e) => Err(e),
            Ok(needs) => match scalar_table(r.env@, "job `env`"@) {
                Err(e) => Err(e),
                Ok(env) => match opt_strategy_of(r.strategy) {
                    Err(e) => Err(e),
                    Ok(strategy) => Ok(
                        JobView {
                            id,
                            name: opt_text(r.name),
                            runs_on: opt_labels(r.runs_on),
                            needs,
                            env,
                            defaults: defaults_of(r.defaults),
                            if_cond: opt_text(r.if_cond),
                            strategy,
                            steps,
                        },
                    ),
                },
            },
        },
    }
}

impl RawJob {
    /// Convert the job.
    pub fn into_job(&self, id: String) -> (r: Result<Job, String>)
        ensures
            (match r {
                Ok(j) => Ok(j@),
                Err(e) => Err(e@),
            }) == job_of(*self, id@),
    {
        let steps = match into_steps(&self.steps) {
            Ok(v) => v,
            Err(e) => {
                return Err(e);
            },
        };
        let runs_on = match &self.runs_on {
            Some(y) => normalize_runs_on(y),
            None => no_texts(),
        };
        let needs = match string_or_list(&self.needs) {
            Ok(v) => v,
            Err(e) => {
                return Err(placed("invalid `needs`", e));
            },
        };
        let env = match scalar_map(&self.env, "job `env`") {
            Ok(m) => m,
            Err(e) => {
                return Err(e);
            },
        };
        let strategy: Option<Strategy> = match &self.strategy {
            None => None,
            Some(s) => match s.into_strategy() {
                Ok(x) => Some(x),
                Err(e) => {
                    return Err(placed("invalid `strategy`", e));
                },
            },
        };
        Ok(
            Job {
                id,
                name: clone_opt(&self.name),
                runs_on,
                needs,
                env,
                defaults: self.defaults.into_defaults(),
                if_cond: clone_opt(&self.if_cond),
                strategy,
                steps,
            },
        )
    }
}

/// Jobs, converted, in order.
pub open spec fn jobs_of(s: Seq<(String, RawJob)>) -> Result<Seq<(Text, JobView)>, Text>
    decreases s.len(),
{
    if s.len() == 0 {
        Ok(Seq::empty())
    } else {
        ahead(
            named(
                s[0].0@,
                within("in job `"@ + s[0].0@ + "`"@, job_of(s[0].1, s[0].0@)),
            ),
            jobs_of(s.skip(1)),
        )
    }
}

/// A workflow, converted.
pub open spec fn workflow_of(r: RawWorkflow) -> Result<WorkflowView, Text> {
    if r.jobs@.len() == 0 {
        Err("workflow defines no `jobs`"@)
    } else {
        match jobs_of(r.jobs@) {
            Err(e) => Err(e),
            Ok(jobs) => match scalar_table(r.env@, "workflow `env`"@) {
                Err(e) => Err(e),
                Ok(env) => Ok(
                    WorkflowView {
                        name: opt_text(r.name),
                        env,
                        defaults: defaults_of(r.defaults),
                        jobs: collected(jobs),
                    },
                ),
            },
        }
    }
}

/// A workflow result over views.
pub open spec fn workflow_result(r: Result<Workflow, String>) -> Result<WorkflowView, Text> {
    match r {
        Ok(w) => Ok(w@),
        Err(e) => Err(e@),
    }
}

impl RawWorkflow {
    /// Convert the workflow.
    pub fn into_workflow(&self) -> (r: Result<Workflow, String>)
        ensures
            workflow_result(r) == workflow_of(*self),
    {
        if self.jobs.len() == 0 {
            return Err("workflow defines no `jobs`".to_owned());
        }
        let mut jobs = job_new();
        let ghost all = self.jobs@;
        let ghost mut done = Seq::<(Text, JobView)>::empty();
        let mut i: usize = 0;
        proof {
            assert(all.skip(0) =~= all);
            match jobs_of(all) {
                Ok(t) => {
                    assert(done + t =~= t);
                },
                Err(_) => {},
            }
        }
        while i < self.jobs.len()
            invariant
                i <= self.jobs@.len(),
                self.jobs@.len() > 0,
                all == self.jobs@,
                job_list(jobs) == collected(done),
                jobs_of(all) == after_done(done, jobs_of(all.skip(i as int))),
            decreases self.jobs@.len() - i,
        {
            let ghost rest = all.skip(i as int);
            assert(rest[0] == all[i as int]);
            assert(rest.skip(1) =~= all.skip(i + 1));
            let id = self.jobs[i].0.clone();
            match self.jobs[i].1.into_job(id.clone()) {
                Err(e) => {
                    let at = concat3("in job `", id.as_str(), "`");
                    return Err(placed(at.as_str(), e));
                },
                Ok(j) => {
                    let ghost kv = (id@, j@);
                    job_put(&mut jobs, id, j);
                    proof {
                        let was = done;
                        done = done.push(kv);
                        assert(done.drop_last() =~= was);
                        assert(job_list(jobs) == collected(done));
                        match jobs_of(rest.skip(1)) {
                            Ok(t) => {
                                assert(was + (seq![kv] + t) =~= done + t);
                            },
                            Err(_) => {},
                        }
                    }
                },
            }
            i += 1;
        }
        assert(done + Seq::<(Text, JobView)>::empty() =~= done);
        match scalar_map(&self.env, "workflow `env`") {
            Err(e) => Err(e),
            Ok(env) => Ok(
                Workflow {
                    name: clone_opt(&self.name),
                    env,
                    defaults: self.defaults.into_defaults(),
                    jobs,
                },
            ),
        }
    }
}

/// A workflow's text, given what reading it as YAML gave.
pub open spec fn parsed(text: Text, read: Result<RawWorkflow, String>) -> Result<
    WorkflowView,
    Text,
> {
    if is_blank(text) {
        Err("workflow file is empty"@)
    } else {
        match read {
            Err(e) => Err("invalid workflow YAML: "@ + e@),
            Ok(raw) => workflow_of(raw),
        }
    }
}

/// Parse a workflow from its text and from what reading that as YAML gave.
pub fn parse_str(text: &str, read: &Result<RawWorkflow, String>) -> (r: Result<Workflow, String>)
    ensures
        workflow_result(r) == parsed(text@, *read),
{
    if blank(text) {
        return Err("workflow file is empty".to_owned());
    }
    match read {
        Err(e) => Err(concat2("invalid workflow YAML: ", e.as_str())),
        Ok(raw) => raw.into_workflow(),
    }
}

// ---------------------------------------------------------------------------
// Actions
// ---------------------------------------------------------------------------

/// An action's input, converted.
pub open spec fn input_of(r: RawInput) -> Result<InputView, Text> {
    match conditional(r.required) {
        Err(e) => Err(e),
        Ok(c) => {
            let required = c == ConditionalView::Bool(true);
            match r.default {
                None => Ok(InputView { default: None, required }),
                Some(y) => match scalar_text(y) {
                    Ok(t) => Ok(InputView { default: Some(t), required }),
                    Err(e) => Err(e),
                },
            }
        },
    }
}

/// An action's inputs, converted.
pub open spec fn inputs_of(s: Seq<(String, RawInput)>) -> Result<Seq<(Text, InputView)>, Text>
    decreases s.len(),
{
    if s.len() == 0 {
        Ok(Seq::empty())
    } else {
        ahead(
            named(s[0].0@, within("in input `"@ + s[0].0@ + "`"@, input_of(s[0].1))),
            inputs_of(s.skip(1)),
        )
    }
}

/// How an action runs, converted.
pub open spec fn runs_of(r: RawRuns) -> Result<RunsView, Text> {
    let using = lowered(r.using@);
    if using == "composite"@ {
        match steps_of(r.steps@, 0) {
            Ok(s) => Ok(RunsView::Composite(s)),
            Err(e) => Err(e),
        }
    } else if crate::text::begins(using, "node"@) {
        match r.main {
            Some(m) => Ok(RunsView::Node(m@)),
            None => Err("a JavaScript action needs `runs.main`"@),
        }
    } else if using == "docker"@ {
        match r.image {
            None => Err("a Docker action needs `runs.image`"@),
            Some(image) => match within("invalid `runs.args`"@, listed(r.args)) {
                Err(e) => Err(e),
                Ok(args) => match scalar_table(r.env@, "`runs.env`"@) {
                    Err(e) => Err(e),
                    Ok(env) => Ok(
                        RunsView::Docker(image@, opt_text(r.entrypoint), args, env),
                    ),
                },
            },
        }
    } else {
        Err("unsupported `runs.using: "@ + r.using@ + "`"@)
    }
}

/// Outputs as they are read, over views.
pub open spec fn raw_outputs(v: Seq<(String, Option<String>)>) -> Seq<(Text, Option<Text>)> {
    v.map_values(|e: (String, Option<String>)| (e.0@, opt_text(e.1)))
}

/// An action, converted.
pub open spec fn action_def_of(r: RawAction) -> Result<ActionView, Text> {
    match inputs_of(r.inputs@) {
        Err(e) => Err(e),
        Ok(inputs) => match runs_of(r.runs) {
            Err(e) => Err(e),
            Ok(runs) => Ok(
                ActionView {
                    inputs: collected(inputs),
                    outputs: collected(raw_outputs(r.outputs@)),
                    runs,
                },
            ),
        },
    }
}

impl RawInput {
    /// Convert the input.
    fn into_input(&self) -> (r: Result<ActionInput, String>)
        ensures
            (match r {
                Ok(x) => Ok(x@),
                Err(e) => Err(e@),
            }) == input_of(*self),
    {
        let required: bool = match normalize_conditional(&self.required) {
            Ok(Conditional::Bool(b)) => b,
            Ok(Conditional::Expr(_)) => false,
            Err(e) => {
                return Err(e);
            },
        };
        match &self.default {
            None => Ok(ActionInput { default: None, required }),
            Some(y) => match scalar_to_string(y) {
                Ok(t) => Ok(ActionInput { default: Some(t), required }),
                Err(e) => Err(e),
            },
        }
    }
}

impl RawRuns {
    /// Convert how the action runs.
    fn into_runs(&self) -> (r: Result<Runs, String>)
        ensures
            (match r {
                Ok(x) => Ok(x@),
                Err(e) => Err(e@),
            }) == runs_of(*self),
    {
        let using = to_lower(self.using.as_str());
        if str_eq(using.as_str(), "composite") {
            match into_steps(&self.steps) {
                Ok(steps) => Ok(Runs::Composite { steps }),
                Err(e) => Err(e),
            }
        } else if crate::text::starts_with(using.as_str(), "node") {
            match &self.main {
                Some(m) => Ok(Runs::Node { main: m.clone() }),
                None => Err("a JavaScript action needs `runs.main`".to_owned()),
            }
        } else if str_eq(using.as_str(), "docker") {
            match &self.image {
                None => Err("a Docker action needs `runs.image`".to_owned()),
                Some(image) => {
                    let args = match string_or_list(&self.args) {
                        Ok(v) => v,
                        Err(e) => {
                            return Err(placed("invalid `runs.args`", e));
                        },
                    };
                    match scalar_map(&self.env, "`runs.env`") {
                        Ok(env) => Ok(
                            Runs::Docker {
                                image: image.clone(),
                                entrypoint: clone_opt(&self.entrypoint),
                                args,
                                env,
                            },
                        ),
                        Err(e) => Err(e),
                    }
                },
            }
        } else {
            Err(concat3("unsupported `runs.using: ", self.using.as_str(), "`"))
        }
    }
}

impl RawAction {
    /// Convert the action.
    pub fn into_action_def(&self) -> (r: Result<ActionDef, String>)
        ensures
            (match r {
                Ok(x) => Ok(x@),
                Err(e) => Err(e@),
            }) == action_def_of(*self),
    {
        let mut inputs = input_new();
        let ghost all = self.inputs@;
        let ghost mut done = Seq::<(Text, InputView)>::empty();
        let mut i: usize = 0;
        proof {
            assert(all.skip(0) =~= all);
            match inputs_of(all) {
                Ok(t) => {
                    assert(done + t =~= t);
                },
                Err(_) => {},
            }
        }
        while i < self.inputs.len()
            invariant
                i <= self.inputs@.len(),
                all == self.inputs@,
                input_list(inputs) == collected(done),
                inputs_of(all) == after_done(done, inputs_of(all.skip(i as int))),
            decreases self.inputs@.len() - i,
        {
            let ghost rest = all.skip(i as int);
            assert(rest[0] == all[i as int]);
            assert(rest.skip(1) =~= all.skip(i + 1));
            let name = self.inputs[i].0.clone();
            match self.inputs[i].1.into_input() {
                Err(e) => {
                    let at = concat3("in input `", name.as_str(), "`");
                    return Err(placed(at.as_str(), e));
                },
                Ok(x) => {
                    let ghost kv = (name@, x@);
                    input_put(&mut inputs, name, x);
                    proof {
                        let was = done;
                        done = done.push(kv);
                        assert(done.drop_last() =~= was);
                        match inputs_of(rest.skip(1)) {
                            Ok(more) => {
                                assert(was + (seq![kv] + more) =~= done + more);
                            },
                            Err(_) => {},
                        }
                    }
                },
            }
            i += 1;
        }
        assert(done + Seq::<(Text, InputView)>::empty() =~= done);
        let runs = match self.runs.into_runs() {
            Ok(x) => x,
            Err(e) => {
                return Err(e);
            },
        };
        let ghost given = raw_outputs(self.outputs@);
        let mut outputs = output_new();
        let mut k: usize = 0;
        assert(given.take(0) =~= Seq::empty());
        while k < self.outputs.len()
            invariant
                k <= self.outputs@.len(),
                given == raw_outputs(self.outputs@),
                output_list(outputs) == collected(given.take(k as int)),
            decreases self.outputs@.len() - k,
        {
            let name = self.outputs[k].0.clone();
            let value = clone_opt(&self.outputs[k].1);
            assert(given.take(k + 1).drop_last() =~= given.take(k as int));
            assert(given.take(k + 1).last() == (name@, opt_text(value)));
            output_put(&mut outputs, name, ActionOutput { value });
            k += 1;
        }
        assert(given.take(k as int) =~= given);
        Ok(ActionDef { inputs, outputs, runs })
    }
}

/// Parse an action file from what reading it as YAML gave.
pub fn parse_action(read: &Result<RawAction, String>) -> (r: Result<ActionDef, String>)
    ensures
        (match r {
            Ok(x) => Ok(x@),
            Err(e) => Err(e@),
        }) == (match *read {
            Err(e) => Err("invalid action YAML: "@ + e@),
            Ok(raw) => action_def_of(raw),
        }),
{
    match read {
        Err(e) => Err(concat2("invalid action YAML: ", e.as_str())),
        Ok(raw) => raw.into_action_def(),
    }
}

// ---------------------------------------------------------------------------
// Laws
// ---------------------------------------------------------------------------

/// A step that has both `run` and `uses`, or neither, is rejected.
pub proof fn law_steps_have_one_body(r: RawStep)
    requires
        (r.run is Some) == (r.uses is Some),
    ensures
        step_of(r) is Err,
{
}

/// The YAML 1.1 spellings of booleans are booleans, whatever their case, and an
/// expression is never taken for one.
pub proof fn law_boolean_spellings(s: Text)
    ensures
        holds(s, "${{"@) ==> spelled(s) == ConditionalView::Expr(s),
        !holds(s, "${{"@) && (lowered(trimmed(s)) == "true"@ || lowered(trimmed(s)) == "yes"@
            || lowered(trimmed(s)) == "on"@ || lowered(trimmed(s)) == "y"@) ==> spelled(s)
            == ConditionalView::Bool(true),
        !holds(s, "${{"@) && (lowered(trimmed(s)) == "no"@ || lowered(trimmed(s)) == "off"@
            || lowered(trimmed(s)) == "n"@) ==> spelled(s) == ConditionalView::Bool(false),
{
    reveal_strlit("true");
    reveal_strlit("yes");
    reveal_strlit("on");
    reveal_strlit("y");
    reveal_strlit("no");
    reveal_strlit("off");
    reveal_strlit("n");
    assert("no"@[0] == 'n' && "on"@[0] == 'o' && "off"@[0] == 'o' && "n"@[0] == 'n');
    assert("off"@.len() == 3 && "on"@.len() == 2);
    assert("y"@[0] == 'y' && "yes"@[0] == 'y' && "true"@[0] == 't');
}

/// A workflow that is accepted has a job, and no job id twice.
pub proof fn law_workflows_have_jobs(r: RawWorkflow)
    ensures
        workflow_of(r) matches Ok(w) ==> w.jobs.len() > 0 && crate::table::distinct(w.jobs),
{
    match workflow_of(r) {
        Ok(w) => {
            let jobs = jobs_of(r.jobs@)->Ok_0;
            assert(jobs.len() > 0);
            crate::table::law_collected_is_distinct(Seq::<(Text, JobView)>::empty(), jobs);
            lemma_put_all_len(jobs);
        },
        Err(_) => {},
    }
}

/// A table made of pairs is not empty where there are any.
proof fn lemma_put_all_len(pairs: Seq<(Text, JobView)>)
    requires
        pairs.len() > 0,
    ensures
        collected(pairs).len() > 0,
{
    let rest = put_all(Seq::<(Text, JobView)>::empty(), pairs.drop_last());
    crate::table::law_put_then_lookup(rest, pairs.last().0, pairs.last().1, pairs.last().0);
}

} // verus!
