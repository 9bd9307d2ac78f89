//! How a step's process is started: program, arguments, directory, environment.

use crate::exec::context::{object_get, string_at, Surroundings, SurroundingsView};
use crate::model::{Job, JobView, Step, StepView, Workflow, WorkflowView};
use crate::paths::{join_path, path_join};
use crate::scan::{join, joined, words, words_of};
use crate::strmap::{map_copy, map_entries, map_put, StrMap};
use crate::table::{law_put_then_lookup, lookup, put};
use crate::text::{clone_opt, concat3, is_empty, opt_text, str_eq, texts, Text};
use crate::value::{Value, ValueView};
use vstd::prelude::*;

verus! {

/// Arguments with the script in place of the first `{0}`, or at the end.
pub open spec fn with_script(args: Seq<Text>, script: Text) -> Seq<Text>
    decreases args.len(),
{
    if args.len() == 0 {
        seq![script]
    } else if args[0] == "{0}"@ {
        args.update(0, script)
    } else {
        seq![args[0]] + with_script(args.skip(1), script)
    }
}

/// The program and the arguments that run a script in a shell.
pub open spec fn shell_line(shell: Text, script: Text) -> (Text, Seq<Text>) {
    if shell == "bash"@ {
        (
            "bash"@,
            seq!["--noprofile"@, "--norc"@, "-e"@, "-o"@, "pipefail"@, script],
        )
    } else if shell == "sh"@ {
        ("sh"@, seq!["-e"@, script])
    } else if shell == "python"@ {
        ("python3"@, seq![script])
    } else {
        let parts = words_of(shell);
        if parts.len() == 0 {
            ("bash"@, seq![script])
        } else {
            (parts[0], with_script(parts.skip(1), script))
        }
    }
}

/// Put the script in place of the first `{0}`, or at the end.
fn place_script(args: Vec<String>, script: &str) -> (r: Vec<String>)
    ensures
        texts(r@) == with_script(texts(args@), script@),
{
    let ghost all = texts(args@);
    let mut out = args;
    let mut i: usize = 0;
    assert(all.take(0) + with_script(all.skip(0), script@) =~= with_script(all, script@)) by {
        assert(all.skip(0) =~= all);
    }
    while i < out.len()
        invariant
            i <= out@.len(),
            all == texts(args@),
            all == texts(out@),
            with_script(all, script@) == all.take(i as int) + with_script(
                all.skip(i as int),
                script@,
            ),
        decreases out@.len() - i,
    {
        let ghost rest = all.skip(i as int);
        assert(rest[0] == out@[i as int]@);
        if str_eq(out[i].as_str(), "{0}") {
            out[i] = script.to_owned();
            assert(texts(out@) =~= all.update(i as int, script@));
            assert(all.take(i as int) + rest.update(0, script@) =~= all.update(i as int, script@));
            return out;
        }
        assert(rest.skip(1) =~= all.skip(i + 1));
        assert(all.take(i as int) + (seq![rest[0]] + with_script(rest.skip(1), script@))
            =~= all.take(i + 1) + with_script(all.skip(i + 1), script@));
        i += 1;
    }
    assert(all.skip(i as int).len() == 0);
    out.push(script.to_owned());
    assert(texts(out@) =~= all.push(script@));
    assert(all.take(i as int) + seq![script@] =~= all.push(script@));
    out
}

/// Map a shell name to a program and its arguments. A name that is not known is a
/// template, in which `{0}` is the script.
pub fn shell_command(shell: &str, script: &str) -> (r: (String, Vec<String>))
    ensures
        (r.0@, texts(r.1@)) == shell_line(shell@, script@),
{
    let mut args: Vec<String> = Vec::new();
    if str_eq(shell, "bash") {
        args.push("--noprofile".to_owned());
        args.push("--norc".to_owned());
        args.push("-e".to_owned());
        args.push("-o".to_owned());
        args.push("pipefail".to_owned());
        args.push(script.to_owned());
        assert(texts(args@) =~= seq![
            "--noprofile"@,
            "--norc"@,
            "-e"@,
            "-o"@,
            "pipefail"@,
            script@,
        ]);
        return ("bash".to_owned(), args);
    }
    if str_eq(shell, "sh") {
        args.push("-e".to_owned());
        args.push(script.to_owned());
        assert(texts(args@) =~= seq!["-e"@, script@]);
        return ("sh".to_owned(), args);
    }
    if str_eq(shell, "python") {
        args.push(script.to_owned());
        assert(texts(args@) =~= seq![script@]);
        return ("python3".to_owned(), args);
    }
    let parts = words(shell);
    if parts.len() == 0 {
        args.push(script.to_owned());
        assert(texts(args@) =~= seq![script@]);
        return ("bash".to_owned(), args);
    }
    let ghost all = texts(parts@);
    let program = parts[0].clone();
    let mut rest = parts;
    let _ = rest.remove(0);
    assert(texts(rest@) =~= all.skip(1));
    assert(all[0] == program@);
    (program, place_script(rest, script))
}

/// The first of three that is there.
pub open spec fn first_of(a: Option<Text>, b: Option<Text>, c: Option<Text>) -> Option<Text> {
    if a is Some {
        a
    } else if b is Some {
        b
    } else {
        c
    }
}

/// The first of three that is there.
fn first_given(a: &Option<String>, b: &Option<String>, c: &Option<String>) -> (r: Option<String>)
    ensures
        opt_text(r) == first_of(opt_text(*a), opt_text(*b), opt_text(*c)),
{
    match a {
        Some(_) => clone_opt(a),
        None => match b {
            Some(_) => clone_opt(b),
            None => clone_opt(c),
        },
    }
}

/// The shell of a step: its own, the job's, the workflow's, or `bash`.
pub open spec fn shell_of(step: StepView, job: JobView, wf: WorkflowView) -> Text {
    match first_of(step.shell, job.defaults.shell, wf.defaults.shell) {
        Some(s) => s,
        None => "bash"@,
    }
}

/// The shell of a step.
pub fn step_shell(step: &Step, job: &Job, wf: &Workflow) -> (r: String)
    ensures
        r@ == shell_of(step@, job@, wf@),
{
    match first_given(&step.shell, &job.defaults.shell, &wf.defaults.shell) {
        Some(s) => s,
        None => "bash".to_owned(),
    }
}

/// A directory under a base, or the base.
pub open spec fn dir_under(base: Text, dir: Option<Text>) -> Text {
    match dir {
        Some(d) => path_join(base, d),
        None => base,
    }
}

/// The directory of a step: its own, the job's or the workflow's, under the base.
pub open spec fn cwd_of(step: StepView, job: JobView, wf: WorkflowView, base: Text) -> Text {
    dir_under(
        base,
        first_of(
            step.working_directory,
            job.defaults.working_directory,
            wf.defaults.working_directory,
        ),
    )
}

/// The directory in which a step runs.
pub fn resolve_cwd(step: &Step, job: &Job, wf: &Workflow, base: &str) -> (r: String)
    ensures
        r@ == cwd_of(step@, job@, wf@, base@),
{
    match first_given(
        &step.working_directory,
        &job.defaults.working_directory,
        &wf.defaults.working_directory,
    ) {
        Some(d) => join_path(base, d.as_str()),
        None => base.to_owned(),
    }
}

/// The directory in which an action's step runs: its own under the workspace, or
/// the workspace.
pub fn resolve_cwd_in(step: &Step, workspace: &str) -> (r: String)
    ensures
        r@ == dir_under(workspace@, step@.working_directory),
{
    match &step.working_directory {
        Some(d) => join_path(workspace, d.as_str()),
        None => workspace.to_owned(),
    }
}

// ---------------------------------------------------------------------------
// The environment
// ---------------------------------------------------------------------------

/// A variable set where there is a value for it.
pub open spec fn put_some(m: Seq<(Text, Text)>, k: Text, v: Option<Text>) -> Seq<(Text, Text)> {
    match v {
        Some(t) => put(m, k, t),
        None => m,
    }
}

/// The variables that mirror the `github` context.
pub open spec fn github_vars(m: Seq<(Text, Text)>, github: ValueView) -> Seq<(Text, Text)> {
    put_some(
        put_some(
            put_some(
                put_some(m, "GITHUB_SHA"@, string_at(github, "sha"@)),
                "GITHUB_REF"@,
                string_at(github, "ref"@),
            ),
            "GITHUB_REF_NAME"@,
            string_at(github, "ref_name"@),
        ),
        "GITHUB_EVENT_NAME"@,
        string_at(github, "event_name"@),
    )
}

/// The variables that mirror the `runner` context.
pub open spec fn runner_vars(m: Seq<(Text, Text)>, runner: ValueView) -> Seq<(Text, Text)> {
    put_some(
        put_some(
            put_some(m, "RUNNER_OS"@, string_at(runner, "os"@)),
            "RUNNER_ARCH"@,
            string_at(runner, "arch"@),
        ),
        "RUNNER_TEMP"@,
        string_at(runner, "temp"@),
    )
}

/// `PATH` with additions in front of what it was.
pub open spec fn path_text(path: Seq<Text>, existing: Text) -> Text {
    if existing.len() == 0 {
        joined(path, ":"@)
    } else {
        joined(path, ":"@) + ":"@ + existing
    }
}

/// The environment of a step: its own variables, then those of the runner, then
/// `PATH` where something was added to it.
pub open spec fn common_env(
    env: Seq<(Text, Text)>,
    path: Seq<Text>,
    s: SurroundingsView,
    cwd: Text,
    existing: Text,
) -> Seq<(Text, Text)> {
    let base = put(
        put(put(env, "GITHUB_WORKSPACE"@, cwd), "CI"@, "true"@),
        "GITHUB_ACTIONS"@,
        "true"@,
    );
    let all = github_vars(runner_vars(base, s.runner), s.github);
    if path.len() == 0 {
        all
    } else {
        put(all, "PATH"@, path_text(path, existing))
    }
}

/// Set a variable where there is a value for it.
fn put_found(m: &mut StrMap, k: &str, from: &Value, key: &str)
    ensures
        map_entries(*final(m)) == put_some(map_entries(*old(m)), k@, string_at(from@, key@)),
{
    match object_get(from, key) {
        Some(v) => map_put(m, k.to_owned(), v),
        None => {},
    }
}

/// Set the variables that mirror the `github` context.
pub fn put_github(m: &mut StrMap, github: &Value)
    ensures
        map_entries(*final(m)) == github_vars(map_entries(*old(m)), github@),
{
    put_found(m, "GITHUB_SHA", github, "sha");
    put_found(m, "GITHUB_REF", github, "ref");
    put_found(m, "GITHUB_REF_NAME", github, "ref_name");
    put_found(m, "GITHUB_EVENT_NAME", github, "event_name");
}

/// The environment in which a step runs, given `PATH` as it is.
pub fn apply_common_env(
    env: &StrMap,
    path: &Vec<String>,
    s: &Surroundings,
    cwd: &str,
    existing: &str,
) -> (r: StrMap)
    ensures
        map_entries(r) == common_env(map_entries(*env), texts(path@), s@, cwd@, existing@),
{
    let mut m = map_copy(env);
    map_put(&mut m, "GITHUB_WORKSPACE".to_owned(), cwd.to_owned());
    map_put(&mut m, "CI".to_owned(), "true".to_owned());
    map_put(&mut m, "GITHUB_ACTIONS".to_owned(), "true".to_owned());
    put_found(&mut m, "RUNNER_OS", &s.runner, "os");
    put_found(&mut m, "RUNNER_ARCH", &s.runner, "arch");
    put_found(&mut m, "RUNNER_TEMP", &s.runner, "temp");
    put_github(&mut m, &s.github);
    if path.len() > 0 {
        let added = join(path, ":");
        let all = if is_empty(existing) {
            added
        } else {
            concat3(added.as_str(), ":", existing)
        };
        map_put(&mut m, "PATH".to_owned(), all);
    }
    m
}

/// The files through which a step hands values back.
#[derive(Debug, Clone)]
pub struct Channels {
    /// Variables for later steps.
    pub env: String,
    /// The step's outputs.
    pub output: String,
    /// Additions to `PATH`.
    pub path: String,
    /// The step's summary.
    pub summary: String,
}

/// [`Channels`] over views.
pub struct ChannelsView {
    /// Variables for later steps.
    pub env: Text,
    /// The step's outputs.
    pub output: Text,
    /// Additions to `PATH`.
    pub path: Text,
    /// The step's summary.
    pub summary: Text,
}

impl View for Channels {
    type V = ChannelsView;

    open spec fn view(&self) -> ChannelsView {
        ChannelsView {
            env: self.env@,
            output: self.output@,
            path: self.path@,
            summary: self.summary@,
        }
    }
}

/// An environment with the channels, which override whatever was there.
pub open spec fn with_channels(m: Seq<(Text, Text)>, c: ChannelsView) -> Seq<(Text, Text)> {
    put(
        put(put(put(m, "GITHUB_ENV"@, c.env), "GITHUB_OUTPUT"@, c.output), "GITHUB_PATH"@, c.path),
        "GITHUB_STEP_SUMMARY"@,
        c.summary,
    )
}

/// Set the channels. They come last, so that a workflow cannot set them.
pub fn put_channels(m: &mut StrMap, c: &Channels)
    ensures
        map_entries(*final(m)) == with_channels(map_entries(*old(m)), c@),
{
    map_put(m, "GITHUB_ENV".to_owned(), c.env.clone());
    map_put(m, "GITHUB_OUTPUT".to_owned(), c.output.clone());
    map_put(m, "GITHUB_PATH".to_owned(), c.path.clone());
    map_put(m, "GITHUB_STEP_SUMMARY".to_owned(), c.summary.clone());
}

// ---------------------------------------------------------------------------
// Laws
// ---------------------------------------------------------------------------

/// The names of the channels differ.
proof fn lemma_channel_names()
    ensures
        "GITHUB_ENV"@ != "GITHUB_OUTPUT"@,
        "GITHUB_ENV"@ != "GITHUB_PATH"@,
        "GITHUB_ENV"@ != "GITHUB_STEP_SUMMARY"@,
        "GITHUB_OUTPUT"@ != "GITHUB_PATH"@,
        "GITHUB_OUTPUT"@ != "GITHUB_STEP_SUMMARY"@,
        "GITHUB_PATH"@ != "GITHUB_STEP_SUMMARY"@,
{
    reveal_strlit("GITHUB_ENV");
    reveal_strlit("GITHUB_OUTPUT");
    reveal_strlit("GITHUB_PATH");
    reveal_strlit("GITHUB_STEP_SUMMARY");
    assert("GITHUB_ENV"@.len() == 10);
    assert("GITHUB_OUTPUT"@.len() == 13);
    assert("GITHUB_PATH"@.len() == 11);
    assert("GITHUB_STEP_SUMMARY"@.len() == 19);
}

/// A workflow cannot set the channels: whatever the environment holds, a step
/// finds there the files that it was given.
pub proof fn law_channels_cannot_be_set(m: Seq<(Text, Text)>, c: ChannelsView)
    ensures
        lookup(with_channels(m, c), "GITHUB_ENV"@) == Some(c.env),
        lookup(with_channels(m, c), "GITHUB_OUTPUT"@) == Some(c.output),
        lookup(with_channels(m, c), "GITHUB_PATH"@) == Some(c.path),
        lookup(with_channels(m, c), "GITHUB_STEP_SUMMARY"@) == Some(c.summary),
{
    lemma_channel_names();
    let a = put(m, "GITHUB_ENV"@, c.env);
    let b = put(a, "GITHUB_OUTPUT"@, c.output);
    let d = put(b, "GITHUB_PATH"@, c.path);
    law_put_then_lookup(m, "GITHUB_ENV"@, c.env, "GITHUB_ENV"@);
    law_put_then_lookup(a, "GITHUB_OUTPUT"@, c.output, "GITHUB_ENV"@);
    law_put_then_lookup(b, "GITHUB_PATH"@, c.path, "GITHUB_ENV"@);
    law_put_then_lookup(b, "GITHUB_PATH"@, c.path, "GITHUB_OUTPUT"@);
    law_put_then_lookup(d, "GITHUB_STEP_SUMMARY"@, c.summary, "GITHUB_ENV"@);
    law_put_then_lookup(d, "GITHUB_STEP_SUMMARY"@, c.summary, "GITHUB_OUTPUT"@);
    law_put_then_lookup(d, "GITHUB_STEP_SUMMARY"@, c.summary, "GITHUB_PATH"@);
}

/// The script is among the arguments of every shell, whatever its name.
pub proof fn law_script_is_passed(shell: Text, script: Text)
    ensures
        shell_line(shell, script).1.contains(script),
{
    let args = shell_line(shell, script).1;
    if shell == "bash"@ {
        assert(args[5] == script);
    } else if shell == "sh"@ {
        assert(args[1] == script);
    } else if shell == "python"@ {
        assert(args[0] == script);
    } else {
        let parts = words_of(shell);
        if parts.len() == 0 {
            assert(args[0] == script);
        } else {
            lemma_script_placed(parts.skip(1), script);
        }
    }
}

/// The script is placed somewhere.
proof fn lemma_script_placed(args: Seq<Text>, script: Text)
    ensures
        with_script(args, script).contains(script),
    decreases args.len(),
{
    let r = with_script(args, script);
    if args.len() == 0 || args[0] == "{0}"@ {
        assert(r[0] == script);
    } else {
        lemma_script_placed(args.skip(1), script);
        let t = with_script(args.skip(1), script);
        let k = choose|k: int| 0 <= k < t.len() && t[k] == script;
        assert(r[k + 1] == script);
    }
}

} // verus!
