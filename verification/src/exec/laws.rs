//! What expressions read, what a process is given, and what a step leaves behind.

use crate::exec::context::{
    answer, arch_label, github_value, job_context, need_value, needs_entries, os_label,
    plain_context, runner_value, step_context, str_value, string_at, JobResult,
    SurroundingsView,
};
use crate::exec::shell::{
    common_env, cwd_of, shell_line, shell_of, with_channels, with_script, ChannelsView,
};
use crate::expr::eval::{ContextView, JobStatus};
use crate::members::str_entries;
use crate::model::{JobView, StepView, WorkflowView};
use crate::paths::path_join;
use crate::scan::{joined, trimmed, words_of};
use crate::table::{
    law_lookup_finds_only_pairs, law_lookup_finds_the_first, law_put_then_lookup, lookup, put,
};
use crate::text::Text;
use crate::value::ValueView;
use vstd::prelude::*;

verus! {

// ---------------------------------------------------------------------------
// What expressions read
// ---------------------------------------------------------------------------

/// Named strings read as strings under their names.
pub proof fn law_named_strings_read_as_strings(m: Seq<(Text, Text)>, k: Text)
    ensures
        str_value(m) matches ValueView::Object(o) && lookup(o, k) == (match lookup(m, k) {
            Some(t) => Some(ValueView::Str(t)),
            None => None,
        }),
    decreases m.len(),
{
    if m.len() > 0 {
        law_named_strings_read_as_strings(m.skip(1), k);
        assert(str_entries(m).skip(1) =~= str_entries(m.skip(1)));
    }
}

/// The names of the contexts are told apart.
proof fn lemma_context_names()
    ensures
        "env"@.len() == 3 && "env"@[0] == 'e',
        "github"@.len() == 6 && "github"@[0] == 'g',
        "runner"@.len() == 6 && "runner"@[0] == 'r',
        "job"@.len() == 3 && "job"@[0] == 'j',
        "steps"@.len() == 5 && "steps"@[0] == 's',
        "secrets"@.len() == 7 && "secrets"@[0] == 's',
        "inputs"@.len() == 6 && "inputs"@[0] == 'i',
        "matrix"@.len() == 6 && "matrix"@[0] == 'm',
        "needs"@.len() == 5 && "needs"@[0] == 'n',
        "status"@.len() == 6 && "result"@.len() == 6 && "outputs"@.len() == 7,
        "result"@[0] == 'r' && "outputs"@[0] == 'o',
{
    reveal_strlit("env");
    reveal_strlit("github");
    reveal_strlit("runner");
    reveal_strlit("job");
    reveal_strlit("steps");
    reveal_strlit("secrets");
    reveal_strlit("inputs");
    reveal_strlit("matrix");
    reveal_strlit("needs");
    reveal_strlit("status");
    reveal_strlit("result");
    reveal_strlit("outputs");
}

/// The word for a status.
pub open spec fn is_status_word(s: JobStatus, t: Text) -> bool {
    &&& s == JobStatus::Success ==> t == "success"@
    &&& s == JobStatus::Failure ==> t == "failure"@
    &&& s == JobStatus::Cancelled ==> t == "cancelled"@
}

/// Whether a context tells the status as it is.
pub open spec fn tells_status(c: ContextView, s: JobStatus) -> bool {
    &&& c.status == s
    &&& lookup(c.vars, "job"@) matches Some(ValueView::Object(o)) && (lookup(
        o,
        "status"@,
    ) matches Some(ValueView::Str(t)) && is_status_word(s, t))
}

/// A step reads the environment, the job so far, the steps before it, the secrets,
/// the combination and the surroundings, each under its name.
pub proof fn law_what_a_step_reads(
    env: Seq<(Text, Text)>,
    s: SurroundingsView,
    steps: Seq<(Text, ValueView)>,
    matrix: Seq<(Text, ValueView)>,
    status: JobStatus,
)
    ensures
        ({
            let c = step_context(env, s, steps, matrix, status);
            &&& lookup(c.vars, "env"@) == Some(str_value(env))
            &&& lookup(c.vars, "github"@) == Some(s.github)
            &&& lookup(c.vars, "runner"@) == Some(s.runner)
            &&& lookup(c.vars, "steps"@) == Some(ValueView::Object(steps))
            &&& lookup(c.vars, "secrets"@) == Some(str_value(s.secrets))
            &&& lookup(c.vars, "matrix"@) == Some(ValueView::Object(matrix))
            &&& lookup(c.vars, "inputs"@) == Some(ValueView::Object(Seq::empty()))
            &&& lookup(c.vars, "needs"@) is None
            &&& tells_status(c, status)
            &&& c.numerals == s.numerals
        }),
{
    lemma_context_names();
    let p = plain_context(env, s, steps, Seq::empty(), status);
    law_what_an_action_step_reads(env, s, steps, Seq::empty(), status);
    let v = ValueView::Object(matrix);
    law_put_then_lookup(p.vars, "matrix"@, v, "env"@);
    law_put_then_lookup(p.vars, "matrix"@, v, "github"@);
    law_put_then_lookup(p.vars, "matrix"@, v, "runner"@);
    law_put_then_lookup(p.vars, "matrix"@, v, "steps"@);
    law_put_then_lookup(p.vars, "matrix"@, v, "secrets"@);
    law_put_then_lookup(p.vars, "matrix"@, v, "inputs"@);
    law_put_then_lookup(p.vars, "matrix"@, v, "job"@);
    law_put_then_lookup(p.vars, "matrix"@, v, "needs"@);
    assert(str_entries(Seq::empty()) =~= Seq::empty());
}

/// A step of an action reads the same but for the combination, and the inputs of
/// the action.
pub proof fn law_what_an_action_step_reads(
    env: Seq<(Text, Text)>,
    s: SurroundingsView,
    steps: Seq<(Text, ValueView)>,
    inputs: Seq<(Text, Text)>,
    status: JobStatus,
)
    ensures
        ({
            let c = plain_context(env, s, steps, inputs, status);
            &&& lookup(c.vars, "env"@) == Some(str_value(env))
            &&& lookup(c.vars, "github"@) == Some(s.github)
            &&& lookup(c.vars, "runner"@) == Some(s.runner)
            &&& lookup(c.vars, "steps"@) == Some(ValueView::Object(steps))
            &&& lookup(c.vars, "secrets"@) == Some(str_value(s.secrets))
            &&& lookup(c.vars, "inputs"@) == Some(str_value(inputs))
            &&& lookup(c.vars, "matrix"@) is None
            &&& lookup(c.vars, "needs"@) is None
            &&& tells_status(c, status)
            &&& c.numerals == s.numerals
        }),
{
    lemma_context_names();
    let v = plain_context(env, s, steps, inputs, status).vars;
    law_lookup_finds_the_first(v, "env"@, 0);
    law_lookup_finds_the_first(v, "github"@, 1);
    law_lookup_finds_the_first(v, "runner"@, 2);
    law_lookup_finds_the_first(v, "job"@, 3);
    law_lookup_finds_the_first(v, "steps"@, 4);
    law_lookup_finds_the_first(v, "secrets"@, 5);
    law_lookup_finds_the_first(v, "inputs"@, 6);
    law_lookup_finds_only_pairs(v, "matrix"@);
    law_lookup_finds_only_pairs(v, "needs"@);
    lemma_status_value(status);
}

proof fn lemma_status_value(status: JobStatus)
    ensures
        crate::exec::context::job_value(status) matches ValueView::Object(o) && (lookup(
            o,
            "status"@,
        ) matches Some(ValueView::Str(t)) && is_status_word(status, t)),
{
    let o = crate::exec::context::job_value(status)->Object_0;
    law_lookup_finds_the_first(o, "status"@, 0);
}

/// The condition of a job reads the results of the jobs that it needs, besides the
/// environment, the secrets, the combination and the surroundings.
pub proof fn law_what_a_job_condition_reads(
    env: Seq<(Text, Text)>,
    results: Seq<(Text, JobResult)>,
    needs: Seq<Text>,
    s: SurroundingsView,
    matrix: Seq<(Text, Text)>,
    status: JobStatus,
)
    ensures
        ({
            let c = job_context(env, results, needs, s, matrix, status);
            &&& lookup(c.vars, "env"@) == Some(str_value(env))
            &&& lookup(c.vars, "github"@) == Some(s.github)
            &&& lookup(c.vars, "runner"@) == Some(s.runner)
            &&& lookup(c.vars, "secrets"@) == Some(str_value(s.secrets))
            &&& lookup(c.vars, "matrix"@) == Some(str_value(matrix))
            &&& lookup(c.vars, "needs"@) == Some(
                ValueView::Object(needs_entries(needs, results)),
            )
            &&& lookup(c.vars, "steps"@) is None
            &&& lookup(c.vars, "inputs"@) is None
            &&& tells_status(c, status)
            &&& c.numerals == s.numerals
        }),
{
    lemma_context_names();
    let v = job_context(env, results, needs, s, matrix, status).vars;
    law_lookup_finds_the_first(v, "github"@, 0);
    law_lookup_finds_the_first(v, "runner"@, 1);
    law_lookup_finds_the_first(v, "env"@, 2);
    law_lookup_finds_the_first(v, "needs"@, 3);
    law_lookup_finds_the_first(v, "job"@, 4);
    law_lookup_finds_the_first(v, "secrets"@, 5);
    law_lookup_finds_the_first(v, "matrix"@, 6);
    law_lookup_finds_only_pairs(v, "steps"@);
    law_lookup_finds_only_pairs(v, "inputs"@);
    lemma_status_value(status);
}

/// Under the id of each job that is needed stands its result: `success`,
/// `failure`, or `skipped` where it was or has none; under no other id anything.
pub proof fn law_results_of_needs(needs: Seq<Text>, results: Seq<(Text, JobResult)>, k: Text)
    ensures
        !needs.contains(k) <==> lookup(needs_entries(needs, results), k) is None,
        needs.contains(k) ==> (lookup(needs_entries(needs, results), k) matches Some(
            ValueView::Object(o),
        ) && {
            &&& lookup(o, "result"@) == Some(
                ValueView::Str(
                    if lookup(results, k) == Some(JobResult::Success) {
                        "success"@
                    } else if lookup(results, k) == Some(JobResult::Failed) {
                        "failure"@
                    } else {
                        "skipped"@
                    },
                ),
            )
            &&& lookup(o, "outputs"@) == Some(ValueView::Object(Seq::empty()))
        }),
    decreases needs.len(),
{
    lemma_context_names();
    if needs.len() > 0 {
        let d = needs.drop_last();
        let last = needs.last();
        law_results_of_needs(d, results, k);
        let v = need_value(lookup(results, last));
        law_put_then_lookup(needs_entries(d, results), last, v, k);
        let o = v->Object_0;
        law_lookup_finds_the_first(o, "result"@, 0);
        law_lookup_finds_the_first(o, "outputs"@, 1);
        assert(needs =~= d.push(last));
        if d.contains(k) {
            let i = choose|i: int| 0 <= i < d.len() && d[i] == k;
            assert(needs[i] == k);
        }
        if needs.contains(k) && k != last {
            let i = choose|i: int| 0 <= i < needs.len() && needs[i] == k;
            assert(d[i] == k);
        }
        if k == last {
            assert(needs[needs.len() - 1] == k);
        }
    }
}

/// What git answers is its output without white space around it, where it ended
/// well and said something.
pub proof fn law_answers_are_trimmed(ok: bool, out: Text)
    ensures
        answer(ok, out) is Some <==> ok && trimmed(out).len() > 0,
        answer(ok, out) matches Some(t) ==> t == trimmed(out),
{
}

/// The `github` context has the workspace, the event, and of the commit and the
/// branch what is known.
pub proof fn law_the_github_context(workspace: Text, sha: Option<Text>, branch: Option<Text>)
    ensures
        string_at(github_value(workspace, sha, branch), "workspace"@) == Some(workspace),
        string_at(github_value(workspace, sha, branch), "event_name"@) == Some("push"@),
        string_at(github_value(workspace, sha, branch), "sha"@) == sha,
        string_at(github_value(workspace, sha, branch), "ref_name"@) == branch,
        string_at(github_value(workspace, sha, branch), "ref"@) == (match branch {
            Some(b) => Some("refs/heads/"@ + b),
            None => None,
        }),
        string_at(github_value(workspace, sha, branch), "ref_type"@) == (match branch {
            Some(_) => Some("branch"@),
            None => None,
        }),
{
    reveal_strlit("workspace");
    reveal_strlit("event_name");
    reveal_strlit("sha");
    reveal_strlit("ref_name");
    reveal_strlit("ref");
    reveal_strlit("ref_type");
    assert("workspace"@.len() == 9 && "event_name"@.len() == 10 && "sha"@.len() == 3
        && "ref_name"@.len() == 8 && "ref"@.len() == 3 && "ref_type"@.len() == 8);
    assert("sha"@[0] == 's' && "ref"@[0] == 'r' && "ref_name"@[4] == 'n' && "ref_type"@[4] == 't');
    let m = github_value(workspace, sha, branch)->Object_0;
    law_lookup_finds_the_first(m, "workspace"@, 0);
    law_lookup_finds_the_first(m, "event_name"@, 1);
    let at: int = if sha is Some {
        law_lookup_finds_the_first(m, "sha"@, 2);
        3
    } else {
        law_lookup_finds_only_pairs(m, "sha"@);
        2
    };
    if branch is Some {
        assert(m[at].0 == "ref_name"@ && m[at + 1].0 == "ref"@ && m[at + 2].0 == "ref_type"@);
        law_lookup_finds_the_first(m, "ref_name"@, at);
        law_lookup_finds_the_first(m, "ref"@, at + 1);
        law_lookup_finds_the_first(m, "ref_type"@, at + 2);
    } else {
        law_lookup_finds_only_pairs(m, "ref_name"@);
        law_lookup_finds_only_pairs(m, "ref"@);
        law_lookup_finds_only_pairs(m, "ref_type"@);
    }
}

/// The `runner` context names the system and the machine as GitHub does.
pub proof fn law_the_runner_context(os: Text, arch: Text, temp: Text)
    ensures
        string_at(runner_value(os, arch, temp), "os"@) == Some(os_label(os)),
        string_at(runner_value(os, arch, temp), "arch"@) == Some(arch_label(arch)),
        string_at(runner_value(os, arch, temp), "temp"@) == Some(temp),
        os_label("linux"@) == "Linux"@,
        os_label("macos"@) == "macOS"@,
        os_label("windows"@) == "Windows"@,
        os != "linux"@ && os != "macos"@ && os != "windows"@ ==> os_label(os) == "Unknown"@,
        arch_label("x86_64"@) == "X64"@,
        arch_label("aarch64"@) == "ARM64"@,
        arch != "x86_64"@ && arch != "aarch64"@ ==> arch_label(arch) == arch,
{
    reveal_strlit("os");
    reveal_strlit("arch");
    reveal_strlit("temp");
    reveal_strlit("linux");
    reveal_strlit("macos");
    reveal_strlit("windows");
    reveal_strlit("x86_64");
    reveal_strlit("aarch64");
    assert("os"@.len() == 2 && "arch"@.len() == 4 && "temp"@.len() == 4 && "arch"@[0] == 'a'
        && "temp"@[0] == 't');
    assert("linux"@[0] == 'l' && "macos"@[0] == 'm' && "windows"@[0] == 'w');
    assert("x86_64"@[0] == 'x' && "aarch64"@[0] == 'a');
    let m = runner_value(os, arch, temp)->Object_0;
    law_lookup_finds_the_first(m, "os"@, 0);
    law_lookup_finds_the_first(m, "arch"@, 1);
    law_lookup_finds_the_first(m, "temp"@, 2);
}

/// A string is read from an object where one stands under the key, and not from
/// anything else.
pub proof fn law_strings_of_objects(v: ValueView, k: Text)
    ensures
        v matches ValueView::Object(m) ==> (lookup(m, k) matches Some(ValueView::Str(t))
            ==> string_at(v, k) == Some(t)),
        v matches ValueView::Object(m) ==> (!(lookup(m, k) matches Some(ValueView::Str(_)))
            ==> string_at(v, k) is None),
        !(v is Object) ==> string_at(v, k) is None,
{
}

// ---------------------------------------------------------------------------
// What a process is given
// ---------------------------------------------------------------------------

/// A step's own shell counts before the job's, the job's before the workflow's,
/// and `bash` is the shell where none is given; so with the working directory,
/// which lies under the workspace unless it starts at the root.
pub proof fn law_nearest_default_counts(step: StepView, job: JobView, wf: WorkflowView, base: Text)
    ensures
        step.shell matches Some(s) ==> shell_of(step, job, wf) == s,
        step.shell is None ==> (job.defaults.shell matches Some(s) ==> shell_of(step, job, wf)
            == s),
        step.shell is None && job.defaults.shell is None ==> (wf.defaults.shell matches Some(s)
            ==> shell_of(step, job, wf) == s),
        step.shell is None && job.defaults.shell is None && wf.defaults.shell is None ==> shell_of(
            step,
            job,
            wf,
        ) == "bash"@,
        step.working_directory matches Some(d) ==> cwd_of(step, job, wf, base) == path_join(
            base,
            d,
        ),
        step.working_directory is None ==> (job.defaults.working_directory matches Some(d)
            ==> cwd_of(step, job, wf, base) == path_join(base, d)),
        step.working_directory is None && job.defaults.working_directory is None ==> (
        wf.defaults.working_directory matches Some(d) ==> cwd_of(step, job, wf, base) == path_join(
            base,
            d,
        )),
        step.working_directory is None && job.defaults.working_directory is None
            && wf.defaults.working_directory is None ==> cwd_of(step, job, wf, base) == base,
{
}

/// The known shells are started as GitHub starts them; any other is a command
/// whose `{0}` is the script, or that has the script behind its arguments.
pub proof fn law_shells_are_started(shell: Text, script: Text)
    ensures
        shell_line("bash"@, script) == (
            "bash"@,
            seq!["--noprofile"@, "--norc"@, "-e"@, "-o"@, "pipefail"@, script],
        ),
        shell_line("sh"@, script) == ("sh"@, seq!["-e"@, script]),
        shell_line("python"@, script) == ("python3"@, seq![script]),
        shell != "bash"@ && shell != "sh"@ && shell != "python"@ && words_of(shell).len() > 0 ==> {
            &&& shell_line(shell, script).0 == words_of(shell)[0]
            &&& !words_of(shell).skip(1).contains("{0}"@) ==> shell_line(shell, script).1
                == words_of(shell).skip(1).push(script)
            &&& forall|i: int|
                1 <= i < words_of(shell).len() && #[trigger] words_of(shell)[i] == "{0}"@ && (
                forall|j: int| 1 <= j < i ==> #[trigger] words_of(shell)[j] != "{0}"@)
                    ==> shell_line(shell, script).1 == words_of(shell).skip(1).update(
                    i - 1,
                    script,
                )
        },
        shell != "bash"@ && shell != "sh"@ && shell != "python"@ && words_of(shell).len() == 0
            ==> shell_line(shell, script) == ("bash"@, seq![script]),
{
    reveal_strlit("bash");
    reveal_strlit("sh");
    reveal_strlit("python");
    assert("bash"@.len() == 4 && "sh"@.len() == 2 && "python"@.len() == 6);
    if shell != "bash"@ && shell != "sh"@ && shell != "python"@ && words_of(shell).len() > 0 {
        let w = words_of(shell);
        let args = w.skip(1);
        if !args.contains("{0}"@) {
            lemma_script_last(args, script);
        }
        assert forall|i: int|
            1 <= i < w.len() && #[trigger] w[i] == "{0}"@ && (forall|j: int|
                1 <= j < i ==> #[trigger] w[j] != "{0}"@) implies shell_line(shell, script).1
            == args.update(i - 1, script) by {
            assert(args[i - 1] == w[i]);
            assert forall|j: int| 0 <= j < i - 1 implies #[trigger] args[j] != "{0}"@ by {
                assert(w[j + 1] != "{0}"@);
            }
            lemma_script_at(args, script, i - 1);
        }
    }
}

proof fn lemma_script_last(args: Seq<Text>, script: Text)
    requires
        !args.contains("{0}"@),
    ensures
        with_script(args, script) == args.push(script),
    decreases args.len(),
{
    if args.len() > 0 {
        let t = args.skip(1);
        assert(args[0] != "{0}"@);
        if t.contains("{0}"@) {
            let i = choose|i: int| 0 <= i < t.len() && t[i] == "{0}"@;
            assert(args[i + 1] == "{0}"@);
        }
        lemma_script_last(t, script);
        assert(seq![args[0]] + t.push(script) =~= args.push(script));
    } else {
        assert(seq![script] =~= args.push(script));
    }
}

proof fn lemma_script_at(args: Seq<Text>, script: Text, i: int)
    requires
        0 <= i < args.len(),
        args[i] == "{0}"@,
        forall|j: int| 0 <= j < i ==> #[trigger] args[j] != "{0}"@,
    ensures
        with_script(args, script) == args.update(i, script),
    decreases i,
{
    if i > 0 {
        let t = args.skip(1);
        assert(args[0] != "{0}"@);
        assert forall|j: int| 0 <= j < i - 1 implies #[trigger] t[j] != "{0}"@ by {
            assert(args[j + 1] != "{0}"@);
        }
        lemma_script_at(t, script, i - 1);
        assert(seq![args[0]] + t.update(i - 1, script) =~= args.update(i, script));
    }
}

proof fn lemma_puts()
    ensures
        forall|m: Seq<(Text, Text)>, k: Text, v: Text, o: Text| #[trigger]
            lookup(put(m, k, v), o) == (if o == k {
                Some(v)
            } else {
                lookup(m, o)
            }),
{
    assert forall|m: Seq<(Text, Text)>, k: Text, v: Text, o: Text| #[trigger]
        lookup(put(m, k, v), o) == (if o == k {
            Some(v)
        } else {
            lookup(m, o)
        }) by {
        law_put_then_lookup(m, k, v, o);
    }
}

/// The names of the variables are told apart.
proof fn lemma_variable_names()
    ensures
        "GITHUB_WORKSPACE"@.len() == 16,
        "CI"@.len() == 2,
        "GITHUB_ACTIONS"@.len() == 14,
        "GITHUB_SHA"@.len() == 10,
        "GITHUB_SHA"@[0] == 'G',
        "GITHUB_SHA"@[7] == 'S',
        "GITHUB_REF"@.len() == 10,
        "GITHUB_REF"@[0] == 'G',
        "GITHUB_REF"@[7] == 'R',
        "GITHUB_REF_NAME"@.len() == 15,
        "GITHUB_EVENT_NAME"@.len() == 17,
        "RUNNER_OS"@.len() == 9,
        "RUNNER_ARCH"@.len() == 11,
        "RUNNER_ARCH"@[7] == 'A',
        "RUNNER_TEMP"@.len() == 11,
        "RUNNER_TEMP"@[7] == 'T',
        "PATH"@.len() == 4,
{
    reveal_strlit("GITHUB_WORKSPACE");
    reveal_strlit("CI");
    reveal_strlit("GITHUB_ACTIONS");
    reveal_strlit("GITHUB_SHA");
    reveal_strlit("GITHUB_REF");
    reveal_strlit("GITHUB_REF_NAME");
    reveal_strlit("GITHUB_EVENT_NAME");
    reveal_strlit("RUNNER_OS");
    reveal_strlit("RUNNER_ARCH");
    reveal_strlit("RUNNER_TEMP");
    reveal_strlit("PATH");
}

/// What a variable is where a value may be given for it.
pub open spec fn given_or(v: Option<Text>, other: Option<Text>) -> Option<Text> {
    match v {
        Some(t) => Some(t),
        None => other,
    }
}

/// A process finds the workspace, the marks of a CI run and what is known of the
/// commit and the runner, whatever the workflow sets; `PATH` begins with what
/// steps have added; every other variable is as the workflow sets it.
pub proof fn law_environment_of_a_process(
    env: Seq<(Text, Text)>,
    path: Seq<Text>,
    s: SurroundingsView,
    cwd: Text,
    existing: Text,
    k: Text,
)
    ensures
        ({
            let e = common_env(env, path, s, cwd, existing);
            &&& lookup(e, "GITHUB_WORKSPACE"@) == Some(cwd)
            &&& lookup(e, "CI"@) == Some("true"@)
            &&& lookup(e, "GITHUB_ACTIONS"@) == Some("true"@)
            &&& lookup(e, "GITHUB_SHA"@) == given_or(
                string_at(s.github, "sha"@),
                lookup(env, "GITHUB_SHA"@),
            )
            &&& lookup(e, "GITHUB_REF"@) == given_or(
                string_at(s.github, "ref"@),
                lookup(env, "GITHUB_REF"@),
            )
            &&& lookup(e, "GITHUB_REF_NAME"@) == given_or(
                string_at(s.github, "ref_name"@),
                lookup(env, "GITHUB_REF_NAME"@),
            )
            &&& lookup(e, "GITHUB_EVENT_NAME"@) == given_or(
                string_at(s.github, "event_name"@),
                lookup(env, "GITHUB_EVENT_NAME"@),
            )
            &&& lookup(e, "RUNNER_OS"@) == given_or(
                string_at(s.runner, "os"@),
                lookup(env, "RUNNER_OS"@),
            )
            &&& lookup(e, "RUNNER_ARCH"@) == given_or(
                string_at(s.runner, "arch"@),
                lookup(env, "RUNNER_ARCH"@),
            )
            &&& lookup(e, "RUNNER_TEMP"@) == given_or(
                string_at(s.runner, "temp"@),
                lookup(env, "RUNNER_TEMP"@),
            )
            &&& path.len() == 0 ==> lookup(e, "PATH"@) == lookup(env, "PATH"@)
            &&& path.len() > 0 && existing.len() == 0 ==> lookup(e, "PATH"@) == Some(
                joined(path, ":"@),
            )
            &&& path.len() > 0 && existing.len() > 0 ==> lookup(e, "PATH"@) == Some(
                joined(path, ":"@) + ":"@ + existing,
            )
            &&& k != "GITHUB_WORKSPACE"@ && k != "CI"@ && k != "GITHUB_ACTIONS"@ && k
                != "GITHUB_SHA"@ && k != "GITHUB_REF"@ && k != "GITHUB_REF_NAME"@ && k
                != "GITHUB_EVENT_NAME"@ && k != "RUNNER_OS"@ && k != "RUNNER_ARCH"@ && k
                != "RUNNER_TEMP"@ && k != "PATH"@ ==> lookup(e, k) == lookup(env, k)
        }),
{
    lemma_variable_names();
    lemma_puts();
}

/// The channels leave every other variable as it was.
pub proof fn law_channels_leave_the_rest(m: Seq<(Text, Text)>, c: ChannelsView, k: Text)
    ensures
        k != "GITHUB_ENV"@ && k != "GITHUB_OUTPUT"@ && k != "GITHUB_PATH"@ && k
            != "GITHUB_STEP_SUMMARY"@ ==> lookup(with_channels(m, c), k) == lookup(m, k),
{
    lemma_puts();
}

/// A path that starts at the root is itself; any other lies under the base, with
/// one slash between them.
pub proof fn law_paths_are_put_under(base: Text, p: Text)
    ensures
        path_join(base, seq!['/'] + p) == seq!['/'] + p,
        path_join(Seq::empty(), p) == p,
        (p.len() > 0 && p[0] != '/') && base.len() > 0 && base.last() != '/' ==> path_join(base, p)
            == base + seq!['/'] + p,
        (p.len() > 0 && p[0] != '/') ==> path_join(base.push('/'), p) == base + seq!['/'] + p,
{
    reveal_strlit("/");
    assert("/"@ =~= seq!['/']);
    let a = seq!['/'] + p;
    assert(a.subrange(0, 1) =~= seq!['/']);
    assert(Seq::<char>::empty() + p =~= p);
    if p.len() > 0 {
        assert(p.subrange(0, 1)[0] == p[0]);
    }
    let b = base.push('/');
    assert(b.subrange(b.len() - 1, b.len() as int) =~= seq!['/']);
    assert(b + p =~= base + seq!['/'] + p);
    if base.len() > 0 {
        assert(base.subrange(base.len() - 1, base.len() as int)[0] == base.last());
    }
}

} // verus!
