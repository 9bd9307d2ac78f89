use indexmap::IndexMap;
use stepci::double::Double;
use stepci::exec::action::{
    action_file, docker_build_args, docker_image, docker_run_args, docker_tag, input_env_vars,
    node_env, read_action_channels, resolve_action, resolve_inputs, tag_of, unsupported_line,
    Composite, CompositePlan, Image, InputError, Target,
};
use stepci::exec::context::{
    build_github, build_runner, git_answer, make_context, make_context_with_inputs, object_get,
    JobResult, Surroundings,
};
use stepci::exec::graph::{job_order, validate_needs};
use stepci::exec::mask::{clip, mask_line, mask_secrets, secret_masks};
use stepci::exec::matrix::expand_matrix;
use stepci::exec::run::{run_workflow, unknown_breakpoints, Action, Run};
use stepci::exec::shell::{
    apply_common_env, put_channels, resolve_cwd, resolve_cwd_in, shell_command, step_shell,
    Channels,
};
use stepci::exec::show::{
    pause_lines, print_diff, read_reply, should_pause_at, step_info, unknown_line, Reply,
};
use stepci::exec::stdout::{render_annotation, Scan};
use stepci::exec::step::{
    apply_exports, eval_condition, finish_step, in_step, plan_step, read_channels, skip_step,
    start_job, step_continues_on_error, step_env, step_header, step_label, strip_expr_wrapper,
    JobState, StepPlan,
};
use stepci::exec::RunOptions;
use stepci::expr::error::ExprError;
use stepci::expr::eval::Context;
use stepci::expr::{references_status_function, JobStatus};
use stepci::members::Members;
use stepci::model::{
    ActionDef, ActionInput, ActionOutput, Conditional, Defaults, Job, Matrix, Runs, Step,
    StepAction, Strategy, Workflow,
};
use stepci::numeral::{Need, Numerals};
use stepci::value::Value;
use stepci::wfcmd::parse as parse_command;

type Strings = IndexMap<String, String>;

fn map(pairs: &[(&str, &str)]) -> Strings {
    pairs
        .iter()
        .map(|(k, v)| (k.to_string(), v.to_string()))
        .collect()
}

fn strings(v: &[&str]) -> Vec<String> {
    v.iter().map(|s| s.to_string()).collect()
}

fn text(s: &str) -> Value {
    Value::Str(s.to_string())
}

fn opts(step_all: bool, breakpoints: &[&str]) -> RunOptions {
    RunOptions {
        job: None,
        workspace: ".".into(),
        step_all,
        breakpoints: strings(breakpoints),
        secrets: Strings::new(),
    }
}

fn surroundings() -> Surroundings {
    Surroundings {
        github: build_github("/ws", &Some("abc".into()), &Some("main".into())),
        runner: build_runner("linux", "x86_64", "/tmp"),
        secrets: map(&[("TOKEN", "s3cr3t-value")]),
        numerals: Numerals::new(),
    }
}

fn step(id: Option<&str>, script: &str) -> Step {
    Step {
        id: id.map(String::from),
        name: None,
        if_cond: None,
        env: Strings::new(),
        working_directory: None,
        shell: None,
        continue_on_error: Conditional::Bool(false),
        action: StepAction::Run {
            script: script.into(),
        },
    }
}

fn job(id: &str, needs: &[&str]) -> Job {
    Job {
        id: id.into(),
        name: None,
        runs_on: strings(&["x"]),
        needs: strings(needs),
        env: Strings::new(),
        defaults: Defaults::default(),
        if_cond: None,
        strategy: None,
        steps: vec![step(None, "true")],
    }
}

fn workflow(jobs: Vec<Job>) -> Workflow {
    Workflow {
        name: None,
        env: Strings::new(),
        defaults: Defaults::default(),
        jobs: jobs.into_iter().map(|j| (j.id.clone(), j)).collect(),
    }
}

fn members(list: &[(&str, Value)]) -> Members {
    let mut m = Members::new();
    for (k, v) in list {
        m.insert(k.to_string(), v.clone());
    }
    m
}

fn object(k: &str, v: &str) -> Value {
    Value::Object(members(&[(k, text(v))]))
}

fn ctx(status: JobStatus) -> Context {
    let mut c = Context::new(members(&[("github", object("ref", "refs/heads/main"))]));
    c.status = status;
    c
}

fn empty_context() -> Context {
    let s = Surroundings {
        github: Value::Null,
        runner: Value::Null,
        secrets: Strings::new(),
        numerals: Numerals::new(),
    };
    make_context(&Strings::new(), &s, &Members::new(), &Members::new(), JobStatus::Success)
}

fn action_input(default: Option<&str>, required: bool) -> ActionInput {
    ActionInput {
        default: default.map(str::to_string),
        required,
    }
}

fn dims(v: &[(&str, &[&str])]) -> IndexMap<String, Vec<String>> {
    v.iter().map(|(k, x)| (k.to_string(), strings(x))).collect()
}

fn matrix(
    dimensions: &[(&str, &[&str])],
    exclude: &[&[(&str, &str)]],
    extra: &[&[(&str, &str)]],
) -> Matrix {
    Matrix {
        dimensions: dims(dimensions),
        include_entries: extra.iter().map(|m| map(m)).collect(),
        exclude: exclude.iter().map(|m| map(m)).collect(),
    }
}

fn combo_strings(combos: &[Strings]) -> Vec<String> {
    combos
        .iter()
        .map(|c| {
            c.iter()
                .map(|(k, v)| format!("{k}={v}"))
                .collect::<Vec<_>>()
                .join(",")
        })
        .collect()
}

// ---------------------------------------------------------------------------
// Masking
// ---------------------------------------------------------------------------

#[test]
fn secrets_are_masked_in_output() {
    let secrets = map(&[("TOKEN", "s3cr3t-value")]);
    assert_eq!(
        mask_secrets("using s3cr3t-value here", &secrets),
        "using *** here"
    );
    let short = map(&[("X", "ab")]);
    assert_eq!(mask_secrets("ab cd", &short), "ab cd");
}

#[test]
fn overlapping_secrets_are_fully_masked() {
    let secrets = map(&[("SHORT", "secret"), ("LONG", "secretXY99")]);
    assert_eq!(mask_secrets("token=secretXY99", &secrets), "token=***");
}

#[test]
fn masks_are_sorted_by_bytes_and_keep_their_order() {
    let secrets = map(&[("A", "four"), ("B", "éééé"), ("C", "ab"), ("D", "also"), ("E", "ééé")]);
    assert_eq!(secret_masks(&secrets), vec!["éééé", "four", "also"]);
    assert_eq!(mask_line("x four y also", &strings(&["four", "also"])), "x *** y ***");
}

#[test]
fn values_of_fewer_than_four_characters_are_not_masked() {
    assert_eq!(mask_secrets("éé", &map(&[("X", "éé")])), "éé");
    assert_eq!(mask_secrets("a ééé b", &map(&[("X", "ééé")])), "a ééé b");
    assert_eq!(mask_secrets("a éééé b", &map(&[("X", "éééé")])), "a *** b");
    let mut scan = Scan::new(&Strings::new());
    assert_eq!(scan.line("::add-mask::éé\n"), None);
    assert_eq!(scan.line("éé\n").as_deref(), Some("éé"));
}

#[test]
fn values_are_clipped_to_one_line() {
    assert_eq!(clip("a\nb"), "a⏎b");
    let long = "x".repeat(81);
    assert_eq!(clip(&long), format!("{}…", "x".repeat(80)));
    assert_eq!(clip(&"y".repeat(80)), "y".repeat(80));
}

// ---------------------------------------------------------------------------
// Pausing
// ---------------------------------------------------------------------------

#[test]
fn should_pause_respects_step_all_and_breakpoints() {
    let with_id = step(Some("build"), "true");
    let no_id = step(None, "true");
    assert!(should_pause_at(&with_id, &opts(true, &[])));
    assert!(should_pause_at(&no_id, &opts(true, &[])));
    assert!(should_pause_at(&with_id, &opts(false, &["build"])));
    assert!(!should_pause_at(&no_id, &opts(false, &["build"])));
    assert!(!should_pause_at(&with_id, &opts(false, &[])));
}

#[test]
fn replies_are_understood() {
    let read = |s: &str| read_reply(&Some(s.to_string()));
    assert!(matches!(read_reply(&None), Reply::Quit));
    for s in ["", " \n", "c", "CONTINUE\n"] {
        assert!(matches!(read(s), Reply::Run), "{s:?}");
    }
    assert!(matches!(read("k"), Reply::Skip));
    assert!(matches!(read("skip"), Reply::Skip));
    assert!(matches!(read("q"), Reply::Quit));
    assert!(matches!(read("Quit\n"), Reply::Quit));
    assert!(matches!(read("i"), Reply::Info));
    assert!(matches!(read("s"), Reply::Shell));
    assert!(matches!(read("Help"), Reply::Unknown(t) if t == "help"));
    assert_eq!(unknown_line("help"), "     unknown command `help` (c/s/i/k/q)");
    assert_eq!(
        pause_lines(2, "Build", "bash", "/repo"),
        vec!["  ⏸  paused before step 2: Build", "     shell: bash   cwd: /repo"]
    );
}

#[test]
fn a_shown_step_hides_its_secrets() {
    let lines = step_info(
        "echo s3cr3t-value\ntrue",
        &map(&[("K", "a s3cr3t-value")]),
        &map(&[("TOKEN", "s3cr3t-value")]),
    );
    assert_eq!(
        lines,
        vec![
            "     ── script ──",
            "     echo ***",
            "     true",
            "     ── env ──",
            "     K=a ***",
        ]
    );
    assert_eq!(step_info("x", &Strings::new(), &Strings::new()).len(), 2);
}

#[test]
fn breakpoints_that_no_step_has_are_named() {
    let mut a = job("a", &[]);
    a.steps = vec![step(Some("build"), "true"), step(None, "true")];
    let wf = workflow(vec![a]);
    assert_eq!(
        unknown_breakpoints(&wf, &strings(&["build", "bild"])),
        vec!["note: no step has id `bild` — that breakpoint will never fire."]
    );
}

// ---------------------------------------------------------------------------
// Matrices
// ---------------------------------------------------------------------------

#[test]
fn matrix_cartesian_exclude_include() {
    let m = matrix(&[("os", &["linux", "mac"]), ("v", &["1", "2"])], &[], &[]);
    assert_eq!(
        combo_strings(&expand_matrix(&m)),
        vec!["os=linux,v=1", "os=linux,v=2", "os=mac,v=1", "os=mac,v=2"]
    );
    let m = matrix(
        &[("os", &["linux", "mac"]), ("v", &["1", "2"])],
        &[&[("os", "mac"), ("v", "1")]],
        &[],
    );
    assert_eq!(
        combo_strings(&expand_matrix(&m)),
        vec!["os=linux,v=1", "os=linux,v=2", "os=mac,v=2"]
    );
    let m = matrix(&[("v", &["1", "2"])], &[], &[&[("extra", "x")]]);
    assert_eq!(
        combo_strings(&expand_matrix(&m)),
        vec!["v=1,extra=x", "v=2,extra=x"]
    );
    let m = matrix(&[("v", &["1"])], &[], &[&[("v", "9"), ("note", "added")]]);
    assert_eq!(
        combo_strings(&expand_matrix(&m)),
        vec!["v=1", "v=9,note=added"]
    );
}

#[test]
fn matrix_includes_only_match_base_combinations() {
    let m = matrix(
        &[("os", &["linux", "win"])],
        &[],
        &[
            &[("os", "mac"), ("gpu", "nvidia")],
            &[("os", "mac"), ("cuda", "12")],
        ],
    );
    assert_eq!(
        combo_strings(&expand_matrix(&m)),
        vec!["os=linux", "os=win", "os=mac,gpu=nvidia", "os=mac,cuda=12"]
    );
}

#[test]
fn matrix_matches_github_include_reference_example() {
    let m = matrix(
        &[("fruit", &["apple", "pear"]), ("animal", &["cat", "dog"])],
        &[],
        &[
            &[("color", "green")],
            &[("color", "pink"), ("animal", "cat")],
            &[("fruit", "apple"), ("shape", "circle")],
            &[("fruit", "banana")],
            &[("fruit", "banana"), ("animal", "cat")],
        ],
    );
    assert_eq!(
        combo_strings(&expand_matrix(&m)),
        vec![
            "fruit=apple,animal=cat,color=pink,shape=circle",
            "fruit=apple,animal=dog,color=green,shape=circle",
            "fruit=pear,animal=cat,color=pink",
            "fruit=pear,animal=dog,color=green",
            "fruit=banana",
            "fruit=banana,animal=cat",
        ]
    );
}

#[test]
fn a_matrix_without_dimensions_is_its_additions() {
    let m = matrix(&[], &[], &[&[("a", "1")], &[("a", "1")]]);
    assert_eq!(combo_strings(&expand_matrix(&m)), vec!["a=1", "a=1"]);
    assert!(expand_matrix(&matrix(&[("v", &[])], &[], &[])).is_empty());
}

// ---------------------------------------------------------------------------
// Actions
// ---------------------------------------------------------------------------

#[test]
fn input_env_vars_uppercase_space_and_hyphen() {
    let inputs = map(&[("my-input", "a"), ("two words", "b")]);
    let env = input_env_vars(&inputs);
    assert_eq!(env["INPUT_MY-INPUT"], "a");
    assert_eq!(env["INPUT_TWO_WORDS"], "b");
}

#[test]
fn resolve_inputs_defaults_required_and_passthrough() {
    let def = ActionDef {
        inputs: IndexMap::from([
            ("base".to_string(), action_input(Some("hi"), false)),
            (
                "derived".to_string(),
                action_input(Some("${{ inputs.base }}-x"), false),
            ),
        ]),
        outputs: IndexMap::new(),
        runs: Runs::Composite { steps: Vec::new() },
    };
    let with = map(&[("extra", "passed")]);
    let resolved = resolve_inputs(&def, &with, &empty_context()).unwrap();
    assert_eq!(resolved["base"], "hi");
    assert_eq!(resolved["derived"], "hi-x");
    assert_eq!(resolved["extra"], "passed");
}

#[test]
fn resolve_inputs_errors_on_missing_required() {
    let def = ActionDef {
        inputs: IndexMap::from([("token".to_string(), action_input(None, true))]),
        outputs: IndexMap::new(),
        runs: Runs::Composite { steps: Vec::new() },
    };
    let err = resolve_inputs(&def, &Strings::new(), &empty_context()).unwrap_err();
    assert!(err.message(&Numerals::new()).unwrap().contains("required"));
    let with = map(&[("token", "${{ 1 +")]);
    assert!(matches!(
        resolve_inputs(&def, &with, &empty_context()),
        Err(InputError::Expr(ExprError::Unterminated))
    ));
}

#[test]
fn resolve_action_classifies_references() {
    let ws = "/nonexistent-workspace-xyz";
    match resolve_action("docker://alpine", ws) {
        Target::Image(def) => {
            assert!(matches!(def.runs, Runs::Docker { ref image, .. } if image == "alpine"))
        }
        other => panic!("got {other:?}"),
    }
    assert!(matches!(
        resolve_action("not-a-valid-ref", ws),
        Target::Unsupported(t) if t == "unrecognized `uses:` reference `not-a-valid-ref`"
    ));
    // A local action that is not there: a clean error.
    match resolve_action("./missing-action", ws) {
        Target::Dir(dir) => {
            let err = action_file(&dir, false, false).unwrap_err();
            assert_eq!(
                err,
                "no action.yml/action.yaml in `/nonexistent-workspace-xyz/./missing-action`"
            );
        }
        other => panic!("got {other:?}"),
    }
    assert!(matches!(
        resolve_action("actions/checkout@v4", ws),
        Target::Remote(r) if r.owner == "actions" && r.git_ref == "v4"
    ));
    assert_eq!(action_file("/a", true, true).unwrap(), "/a/action.yml");
    assert_eq!(action_file("/a", false, true).unwrap(), "/a/action.yaml");
    assert_eq!(unsupported_line(3, "why"), "  ⤼ step 3 skipped (why)");
}

#[test]
fn a_composite_action_runs_its_steps() {
    let s = surroundings();
    let env = map(&[("E", "1")]);
    let inputs = map(&[("who", "me")]);
    let mut comp = Composite::new();
    let mut first = step(Some("a"), "echo ${{ inputs.who }}");
    first.env = map(&[("X", "${{ inputs.who }}!")]);
    first.working_directory = Some("sub".into());
    assert!(comp.step_runs(&first, &env, &inputs, &s).unwrap());
    match comp.plan(&first, &env, &inputs, &s, "/ws").unwrap() {
        CompositePlan::Run {
            script,
            shell,
            cwd,
            env,
        } => {
            assert_eq!(script, "echo me");
            assert_eq!(shell, "bash");
            assert_eq!(cwd, "/ws/sub");
            assert_eq!(env, map(&[("E", "1"), ("INPUT_WHO", "me"), ("X", "me!")]));
        }
        other => panic!("got {other:?}"),
    }
    let outs = vec![("o".to_string(), "v".to_string())];
    assert_eq!(
        comp.finish(&first, &env, &inputs, &s, true, Some(0), &outs).unwrap(),
        "  │   ✓"
    );
    let second = step(Some("b"), "false");
    assert_eq!(
        comp.finish(&second, &env, &inputs, &s, false, Some(2), &vec![]).unwrap(),
        "  │   ✗ failed (exit 2)"
    );
    assert_eq!(comp.status, JobStatus::Failure);
    assert!(!comp.step_runs(&first, &env, &inputs, &s).unwrap());
    comp.skip(&step(Some("c"), "x"));
    let def = ActionDef {
        inputs: IndexMap::new(),
        outputs: IndexMap::from([
            (
                "out".into(),
                ActionOutput {
                    value: Some("${{ steps.a.outputs.o }}-${{ steps.b.outcome }}-${{ steps.c.conclusion }}".into()),
                },
            ),
            ("none".into(), ActionOutput { value: None }),
        ]),
        runs: Runs::Composite { steps: vec![] },
    };
    assert_eq!(
        comp.outputs(&def, &env, &inputs, &s).unwrap(),
        map(&[("out", "v-failure-skipped")])
    );
}

#[test]
fn a_nested_action_is_passed_over() {
    let s = surroundings();
    let comp = Composite::new();
    let mut nested = step(None, "");
    nested.action = StepAction::Uses {
        action: "a/b@v1".into(),
        with: Strings::new(),
    };
    assert!(matches!(
        comp.plan(&nested, &Strings::new(), &Strings::new(), &s, "/ws").unwrap(),
        CompositePlan::Nested(a) if a == "a/b@v1"
    ));
}

#[test]
fn docker_images_are_named_or_built() {
    assert!(matches!(docker_image("docker://a:1", "/d", true), Image::Prebuilt(n) if n == "a:1"));
    assert!(matches!(docker_image("Dockerfile", "/d", true), Image::Build(f) if f == "/d/Dockerfile"));
    assert!(matches!(docker_image("alpine", "/d", false), Image::Prebuilt(n) if n == "alpine"));
    assert_eq!(tag_of(255), "stepci-action:ff");
    assert_eq!(docker_tag("/d"), docker_tag("/d"));
    assert_ne!(docker_tag("/d"), docker_tag("/e"));
    assert!(docker_tag("/d").starts_with("stepci-action:"));
    assert_eq!(
        docker_build_args("t", "f", "d"),
        vec!["build", "-q", "-t", "t", "-f", "f", "d"]
    );
}

#[test]
fn docker_arguments_hold_mounts_variables_and_arguments() {
    let s = surroundings();
    let args = docker_run_args(
        "/ws",
        "/chan",
        &map(&[("A", "1")]),
        &map(&[("x", "in")]),
        &map(&[("OWN", "${{ inputs.x }}")]),
        &Some("/bin/e".into()),
        "img",
        &strings(&["${{ inputs.x }}", "tail"]),
        &s,
    )
    .unwrap();
    assert_eq!(
        args[..8].to_vec(),
        vec![
            "run",
            "--rm",
            "-w",
            "/github/workspace",
            "-v",
            "/ws:/github/workspace",
            "-v",
            "/chan:/github/file_commands",
        ]
    );
    for want in [
        "A=1",
        "INPUT_X=in",
        "OWN=in",
        "GITHUB_WORKSPACE=/github/workspace",
        "GITHUB_ENV=/github/file_commands/env",
        "GITHUB_SUMMARY=/github/file_commands/summary",
        "RUNNER_OS=Linux",
        "GITHUB_SHA=abc",
        "GITHUB_REF=refs/heads/main",
    ] {
        let at = args.iter().position(|a| a == want).expect(want);
        assert_eq!(args[at - 1], "-e");
    }
    assert_eq!(
        args[args.len() - 5..].to_vec(),
        vec!["--entrypoint", "/bin/e", "img", "in", "tail"]
    );
}

#[test]
fn a_javascript_action_gets_inputs_and_channels() {
    let s = surroundings();
    let c = Channels {
        env: "/c/env".into(),
        output: "/c/out".into(),
        path: "/c/path".into(),
        summary: "/c/sum".into(),
    };
    let env = node_env(
        &map(&[("GITHUB_ENV", "mine")]),
        &map(&[("a b", "1")]),
        &strings(&["/p"]),
        &s,
        "/ws",
        "/usr/bin",
        &c,
        "/c/state",
        "/act",
    );
    assert_eq!(env["INPUT_A_B"], "1");
    assert_eq!(env["GITHUB_ENV"], "/c/env");
    assert_eq!(env["GITHUB_STATE"], "/c/state");
    assert_eq!(env["GITHUB_ACTION_PATH"], "/act");
    assert_eq!(env["PATH"], "/p:/usr/bin");
}

// ---------------------------------------------------------------------------
// Conditions
// ---------------------------------------------------------------------------

#[test]
fn if_condition_implicitly_requires_success() {
    assert!(eval_condition("github.ref == 'refs/heads/main'", &ctx(JobStatus::Success)).unwrap());
    assert!(!eval_condition("github.ref == 'refs/heads/main'", &ctx(JobStatus::Failure)).unwrap());
}

#[test]
fn if_condition_with_status_function_is_not_wrapped() {
    assert!(eval_condition("always()", &ctx(JobStatus::Failure)).unwrap());
    assert!(eval_condition("failure()", &ctx(JobStatus::Failure)).unwrap());
    assert!(!eval_condition("success()", &ctx(JobStatus::Failure)).unwrap());
}

#[test]
fn if_wrapper_stripping() {
    assert_eq!(strip_expr_wrapper("${{ success() }}"), "success()");
    assert_eq!(strip_expr_wrapper("github.ref"), "github.ref");
    // Two spans are no single wrapper.
    assert_eq!(strip_expr_wrapper("${{ a }} && ${{ b }}"), "${{ a }} && ${{ b }}");
    assert_eq!(strip_expr_wrapper("${{ a }} "), "${{ a }} ");
    assert_eq!(strip_expr_wrapper("${{ 'x}}' }}"), "'x}}'");
    assert_eq!(strip_expr_wrapper("${{ 'a' }} ${{ b }}-${{ 'c}}' }}"), "${{ 'a' }} ${{ b }}-${{ 'c}}' }}");
    // A quote that is left open hides no wrapper.
    assert_eq!(strip_expr_wrapper("${{ it's }}"), "it's");
    assert_eq!(strip_expr_wrapper("${{ a }}}"), "a }");
    assert_eq!(strip_expr_wrapper("${{ a }} b }}"), "a }} b");
    assert_eq!(strip_expr_wrapper("${{}}"), "");
    assert_eq!(strip_expr_wrapper("${{}"), "${{}");
    assert_eq!(strip_expr_wrapper("${{ a"), "${{ a");
}

#[test]
fn status_detection_is_structural_not_textual() {
    let n = Numerals::new();
    let refs = |s: &str| references_status_function(s, &n);
    assert!(refs("always()").unwrap());
    assert!(refs("success() && github.ref == 'x'").unwrap());
    assert!(refs("contains(x, always())").unwrap());
    assert!(!refs("steps.success.outputs.x == '1'").unwrap());
    assert!(!refs("env.MODE == 'always()'").unwrap());
    assert!(!refs("contains(x, 'always(')").unwrap());
}

#[test]
fn string_literal_condition_is_still_success_gated() {
    let mut c = ctx(JobStatus::Failure);
    c.vars.insert("github".to_string(), object("mode", "always()"));
    assert!(!eval_condition("github.mode == 'always()'", &c).unwrap());
}

#[test]
fn continue_on_error_is_a_flag_or_an_expression() {
    let c = ctx(JobStatus::Success);
    let mut s = step(None, "x");
    assert!(!step_continues_on_error(&s, &c).unwrap());
    s.continue_on_error = Conditional::Bool(true);
    assert!(step_continues_on_error(&s, &c).unwrap());
    s.continue_on_error = Conditional::Expr("${{ github.ref == 'refs/heads/main' }}".into());
    assert!(step_continues_on_error(&s, &c).unwrap());
    s.continue_on_error = Conditional::Expr("github.nope".into());
    assert!(!step_continues_on_error(&s, &c).unwrap());
    s.continue_on_error = Conditional::Expr("1 +".into());
    assert!(step_continues_on_error(&s, &c).is_err());
}

// ---------------------------------------------------------------------------
// Shells and environments
// ---------------------------------------------------------------------------

#[test]
fn shell_command_defaults() {
    let (p, a) = shell_command("bash", "/tmp/s.sh");
    assert_eq!(p, "bash");
    assert_eq!(a.last().unwrap(), "/tmp/s.sh");
    assert!(a.contains(&"pipefail".to_string()));

    let (p, a) = shell_command("pwsh -File {0}", "/tmp/s.ps1");
    assert_eq!(p, "pwsh");
    assert_eq!(a, vec!["-File".to_string(), "/tmp/s.ps1".to_string()]);
}

#[test]
fn other_shells_get_the_script_too() {
    assert_eq!(shell_command("sh", "f"), ("sh".into(), strings(&["-e", "f"])));
    assert_eq!(shell_command("python", "f"), ("python3".into(), strings(&["f"])));
    assert_eq!(shell_command("perl -w", "f"), ("perl".into(), strings(&["-w", "f"])));
    assert_eq!(shell_command("  ", "f"), ("bash".into(), strings(&["f"])));
    assert_eq!(
        shell_command("x {0} {0}", "f"),
        ("x".into(), strings(&["f", "{0}"]))
    );
}

#[test]
fn shells_and_directories_fall_back() {
    let mut wf = workflow(vec![]);
    let mut j = job("j", &[]);
    let mut s = step(None, "x");
    assert_eq!(step_shell(&s, &j, &wf), "bash");
    assert_eq!(resolve_cwd(&s, &j, &wf, "/ws"), "/ws");
    wf.defaults.shell = Some("sh".into());
    wf.defaults.working_directory = Some("w".into());
    assert_eq!(step_shell(&s, &j, &wf), "sh");
    assert_eq!(resolve_cwd(&s, &j, &wf, "/ws"), "/ws/w");
    j.defaults.shell = Some("python".into());
    j.defaults.working_directory = Some("/abs".into());
    assert_eq!(step_shell(&s, &j, &wf), "python");
    assert_eq!(resolve_cwd(&s, &j, &wf, "/ws"), "/abs");
    s.shell = Some("perl".into());
    s.working_directory = Some("s".into());
    assert_eq!(step_shell(&s, &j, &wf), "perl");
    assert_eq!(resolve_cwd(&s, &j, &wf, "/ws"), "/ws/s");
    assert_eq!(resolve_cwd_in(&s, "/ws"), "/ws/s");
}

#[test]
fn a_step_gets_the_runner_variables() {
    let s = surroundings();
    let mut env = apply_common_env(
        &map(&[("CI", "no"), ("GITHUB_ENV", "mine")]),
        &vec![],
        &s,
        "/cwd",
        "/usr/bin",
    );
    assert_eq!(env["CI"], "true");
    assert_eq!(env["GITHUB_WORKSPACE"], "/cwd");
    assert_eq!(env["RUNNER_OS"], "Linux");
    assert_eq!(env["RUNNER_ARCH"], "X64");
    assert_eq!(env["RUNNER_TEMP"], "/tmp");
    assert_eq!(env["GITHUB_SHA"], "abc");
    assert_eq!(env["GITHUB_REF_NAME"], "main");
    assert_eq!(env["GITHUB_EVENT_NAME"], "push");
    assert!(!env.contains_key("PATH"));
    let c = Channels {
        env: "1".into(),
        output: "2".into(),
        path: "3".into(),
        summary: "4".into(),
    };
    put_channels(&mut env, &c);
    assert_eq!(env["GITHUB_ENV"], "1");
    assert_eq!(env["GITHUB_STEP_SUMMARY"], "4");
    let with_path = apply_common_env(&Strings::new(), &strings(&["/b", "/a"]), &s, "/", "");
    assert_eq!(with_path["PATH"], "/b:/a");
}

#[test]
fn contexts_are_built_from_plain_values() {
    let g = build_github("/ws", &None, &None);
    assert_eq!(object_get(&g, "workspace").as_deref(), Some("/ws"));
    assert_eq!(object_get(&g, "event_name").as_deref(), Some("push"));
    assert_eq!(object_get(&g, "sha"), None);
    let g = build_github("/ws", &Some("s".into()), &Some("b".into()));
    assert_eq!(object_get(&g, "ref").as_deref(), Some("refs/heads/b"));
    assert_eq!(object_get(&g, "ref_type").as_deref(), Some("branch"));
    assert_eq!(object_get(&Value::Null, "x"), None);
    let r = build_runner("macos", "aarch64", "/t");
    assert_eq!(object_get(&r, "os").as_deref(), Some("macOS"));
    assert_eq!(object_get(&r, "arch").as_deref(), Some("ARM64"));
    let r = build_runner("windows", "riscv64", "/t");
    assert_eq!(object_get(&r, "os").as_deref(), Some("Windows"));
    assert_eq!(object_get(&r, "arch").as_deref(), Some("riscv64"));
    assert_eq!(object_get(&build_runner("plan9", "x", "/t"), "os").as_deref(), Some("Unknown"));
    assert_eq!(git_answer(true, " abc\n").as_deref(), Some("abc"));
    assert_eq!(git_answer(true, " \n"), None);
    assert_eq!(git_answer(false, "abc"), None);
    let s = surroundings();
    let c = make_context_with_inputs(
        &map(&[("E", "e")]),
        &s,
        &Members::new(),
        &map(&[("i", "v")]),
        JobStatus::Failure,
    );
    assert!(eval_condition("env.E == 'e' && inputs.i == 'v' && job.status == 'failure' && failure()", &c).unwrap());
    assert!(eval_condition("secrets.TOKEN == 's3cr3t-value' && always()", &c).unwrap());
}

// ---------------------------------------------------------------------------
// Steps
// ---------------------------------------------------------------------------

fn started() -> JobState {
    start_job(
        &map(&[("A", "1"), ("B", "${{ env.A }}2")]),
        &map(&[("C", "${{ env.B }}${{ matrix.v }}")]),
        &map(&[("v", "x")]),
        &surroundings(),
    )
    .unwrap()
}

#[test]
fn variables_are_layered_in_order() {
    let st = started();
    assert_eq!(st.env, map(&[("A", "1"), ("B", "12"), ("C", "12x")]));
    assert_eq!(st.status, JobStatus::Success);
    assert!(start_job(
        &map(&[("A", "${{ 1 +")]),
        &Strings::new(),
        &Strings::new(),
        &surroundings()
    )
    .is_err());
}

#[test]
fn a_step_is_planned_from_its_condition_and_its_body() {
    let s = surroundings();
    let st = started();
    let wf = workflow(vec![]);
    let j = job("j", &[]);
    let mut a = step(Some("a"), "echo ${{ env.X }}");
    a.env = map(&[("X", "${{ env.C }}!")]);
    let env = step_env(&a, &st, &s).unwrap();
    assert_eq!(env["X"], "12x!");
    match plan_step(&a, &j, &wf, &env, &st, &s, "/ws").unwrap() {
        StepPlan::Run { script, shell, cwd } => {
            assert_eq!(script, "echo 12x!");
            assert_eq!(shell, "bash");
            assert_eq!(cwd, "/ws");
        }
        other => panic!("got {other:?}"),
    }
    a.if_cond = Some("env.X == 'no'".into());
    assert!(matches!(
        plan_step(&a, &j, &wf, &env, &st, &s, "/ws").unwrap(),
        StepPlan::Skip
    ));
    a.if_cond = Some("${{ always() }}".into());
    a.action = StepAction::Uses {
        action: "./x".into(),
        with: map(&[("k", "v")]),
    };
    assert!(matches!(
        plan_step(&a, &j, &wf, &env, &st, &s, "/ws").unwrap(),
        StepPlan::Uses { action, with } if action == "./x" && with["k"] == "v"
    ));
}

#[test]
fn what_a_step_hands_back_reaches_the_next() {
    let s = surroundings();
    let mut st = started();
    let printed = vec![("o".to_string(), "printed".to_string())];
    let io = read_channels("NEW=1\nA=2\n", "/one\n/two\n", "o=file\np=q\n", &printed).unwrap();
    apply_exports(&mut st, &io);
    assert_eq!(st.env["NEW"], "1");
    assert_eq!(st.env["A"], "2");
    assert_eq!(st.path, vec!["/two", "/one"]);
    let a = step(Some("a"), "x");
    let env = step_env(&a, &st, &s).unwrap();
    let line = finish_step(&mut st, &a, 1, &env, &s, true, Some(0), &io.outputs).unwrap();
    assert_eq!(line, "  ✓ step 1 ok");
    let mut b = step(None, "x");
    b.if_cond = Some("steps.a.outputs.o == 'printed' && steps.a.outputs.p == 'q'".into());
    assert!(matches!(
        plan_step(&b, &job("j", &[]), &workflow(vec![]), &env, &st, &s, "/").unwrap(),
        StepPlan::Run { .. }
    ));
    assert!(read_channels("", "", "K<<EOF\nx\n", &vec![]).is_err());
    assert!(read_action_channels("K<<EOF\nx\n", "", "", &vec![]).is_err());
}

#[test]
fn a_failed_step_fails_the_job_unless_it_is_forgiven() {
    let s = surroundings();
    let mut st = started();
    let mut a = step(Some("a"), "x");
    a.continue_on_error = Conditional::Bool(true);
    let env = step_env(&a, &st, &s).unwrap();
    assert_eq!(
        finish_step(&mut st, &a, 2, &env, &s, false, Some(3), &vec![]).unwrap(),
        "  ⚠ step 2 failed (exit 3) — continue-on-error"
    );
    assert_eq!(st.status, JobStatus::Success);
    let b = step(Some("b"), "x");
    assert_eq!(
        finish_step(&mut st, &b, 3, &env, &s, false, Some(-1), &vec![]).unwrap(),
        "  ✗ step 3 failed (exit -1)"
    );
    assert_eq!(st.status, JobStatus::Failure);
    skip_step(&mut st, &step(Some("c"), "x"));
    let mut d = step(None, "x");
    d.if_cond = Some(
        "always() && steps.a.outcome == 'failure' && steps.a.conclusion == 'success' && steps.b.conclusion == 'failure' && steps.c.outcome == 'skipped'"
            .into(),
    );
    assert!(matches!(
        plan_step(&d, &job("j", &[]), &workflow(vec![]), &env, &st, &s, "/").unwrap(),
        StepPlan::Run { .. }
    ));
    let e = step(Some("e"), "x");
    assert_eq!(
        finish_step(&mut st, &e, 4, &env, &s, false, None, &vec![]).unwrap(),
        "  ✗ step 4 failed"
    );
    let mut f = step(Some("f"), "x");
    f.continue_on_error = Conditional::Expr("1 +".into());
    assert!(finish_step(&mut st, &f, 5, &env, &s, false, None, &vec![]).is_err());
    assert_eq!(in_step(5, "why"), "in step 5: why");
}

#[test]
fn steps_are_labelled() {
    let mut a = step(None, "\n  \n  echo hi  \nx");
    assert_eq!(step_label(&a), "echo hi");
    assert_eq!(step_header(&a, 1), "  ▸ step 1: echo hi … ");
    a.name = Some("Name".into());
    assert_eq!(step_label(&a), "Name");
    let mut u = step(None, "");
    assert_eq!(step_label(&u), "");
    u.action = StepAction::Uses {
        action: "a/b@c".into(),
        with: Strings::new(),
    };
    assert_eq!(step_label(&u), "a/b@c");
}

#[test]
fn a_number_that_needs_converting_leaves_the_state_alone() {
    let mut s = surroundings();
    let mut st = started();
    let mut a = step(Some("a"), "x");
    a.continue_on_error = Conditional::Expr("1.5 > 1".into());
    let env = step_env(&a, &st, &s).unwrap();
    match finish_step(&mut st, &a, 1, &env, &s, false, Some(1), &vec![]) {
        Err(ExprError::Need(Need::Reading(t))) => {
            assert_eq!(st.steps.len(), 0);
            let bits = t.parse::<f64>().unwrap().to_bits();
            s.numerals.learn_reading(t, Double { bits });
        }
        other => panic!("got {other:?}"),
    }
    assert_eq!(
        finish_step(&mut st, &a, 1, &env, &s, false, Some(1), &vec![]).unwrap(),
        "  ⚠ step 1 failed (exit 1) — continue-on-error"
    );
}

// ---------------------------------------------------------------------------
// Output
// ---------------------------------------------------------------------------

#[test]
fn output_is_scanned_for_commands() {
    let mut scan = Scan::new(&map(&[("T", "s3cr3t")]));
    assert_eq!(scan.line("hello s3cr3t\r\n").as_deref(), Some("hello ***"));
    assert_eq!(scan.line("::set-output name=a::1\n"), None);
    assert_eq!(scan.line("::set-output::lost\n"), None);
    assert_eq!(scan.line("::set-output name=b::2"), None);
    assert_eq!(
        scan.outputs(),
        &vec![
            ("a".to_string(), "1".to_string()),
            ("b".to_string(), "2".to_string())
        ]
    );
    assert_eq!(scan.line("::add-mask::hidden\n"), None);
    assert_eq!(scan.line("::add-mask::abc\n"), None);
    assert_eq!(scan.line("a hidden abc\n").as_deref(), Some("a *** abc"));
    for quiet in ["save-state", "set-env", "add-path", "echo", "stop-commands", "endgroup"] {
        assert_eq!(scan.line(&format!("::{quiet} name=x::y\n")), None, "{quiet}");
    }
    assert_eq!(
        scan.line("::error file=a.rs,line=3::bad hidden\n").as_deref(),
        Some("  ✗ error (a.rs:3): bad ***")
    );
    assert_eq!(
        scan.line("::warning file=a.rs::w\n").as_deref(),
        Some("  ⚠ warning (a.rs): w")
    );
    assert_eq!(scan.line("::notice::n\n").as_deref(), Some("  notice: n"));
    assert_eq!(scan.line("::group::g\n").as_deref(), Some("  ▸ g"));
    assert_eq!(scan.line("::debug::d\n").as_deref(), Some("  ::debug:: d"));
    assert_eq!(scan.line("::other::x\n").as_deref(), Some("::other::x"));
    assert_eq!(scan.line("\r\r\n").as_deref(), Some("\r"));
}

#[test]
fn changes_are_shown_with_secrets_masked() {
    let before = map(&[("A", "1"), ("B", "2")]);
    let after = map(&[("A", "s3cr3t-value"), ("C", "3")]);
    let env = stepci::diff::env_diff(&before, &after, &vec![], &strings(&["/p/s3cr3t-value"]));
    let mut x = stepci::diff::FsSnapshot::new();
    let mut y = stepci::diff::FsSnapshot::new();
    let sig = |size| Some(stepci::diff::FileSig { size, mtime: None });
    x.offer("gone", sig(1), 100);
    for i in 0..52 {
        x.offer(&format!("m{i:02}"), sig(1), 100);
        y.offer(&format!("m{i:02}"), sig(2), 100);
    }
    y.offer("new/a", sig(1), 100);
    y.offer("new/b", sig(1), 100);
    let fs = stepci::diff::fs_diff(&x, &y);
    let lines = print_diff(&env, &fs, &map(&[("T", "s3cr3t-value")]));
    assert_eq!(
        lines[..8].to_vec(),
        vec![
            "    env:",
            "      + C = 3",
            "      ~ A: 1 → ***",
            "      - B",
            "      + PATH ⊕ /p/***",
            "    files:",
            "      + new/ (2 files)",
            "      - gone",
        ]
    );
    assert_eq!(lines[8], "      ~ m00");
    assert_eq!(lines[57], "      ~ m49");
    assert_eq!(lines[58], "      … and 2 more modified");
    assert_eq!(lines.len(), 59);
    let nothing = stepci::diff::env_diff(&before, &before, &vec![], &vec![]);
    assert!(print_diff(&nothing, &stepci::diff::fs_diff(&x, &x), &Strings::new()).is_empty());
    let mut cut = stepci::diff::FsSnapshot::new();
    cut.offer("a", sig(1), 1);
    cut.offer("b", sig(1), 1);
    assert_eq!(
        print_diff(&nothing, &stepci::diff::fs_diff(&cut, &x), &Strings::new()),
        vec!["    (filesystem diff skipped: workspace exceeds 20000 files)"]
    );
}

#[test]
fn annotations_name_no_secret_place() {
    let mut scan = Scan::new(&map(&[("T", "s3cr3t")]));
    assert_eq!(
        scan.line("::warning file=s3cr3t/a.rs,line=7::see s3cr3t\n").as_deref(),
        Some("  ⚠ warning (***/a.rs:7): see ***")
    );
}

#[test]
fn a_secret_with_a_star_inside_is_masked() {
    assert_eq!(
        mask_secrets("x ab*cd y", &map(&[("S", "ab*cd"), ("T", "longer-one")])),
        "x *** y"
    );
    assert_eq!(
        mask_secrets("longer-one", &map(&[("S", "ab*cd"), ("T", "longer-one")])),
        "***"
    );
}

// ---------------------------------------------------------------------------
// Runs
// ---------------------------------------------------------------------------

#[test]
fn job_order_is_topological() {
    let wf = workflow(vec![job("c", &["b"]), job("b", &["a"]), job("a", &[])]);
    assert_eq!(job_order(&wf, &None).unwrap(), vec!["a", "b", "c"]);
}

#[test]
fn job_order_detects_cycles() {
    let wf = workflow(vec![job("a", &["b"]), job("b", &["a"])]);
    assert!(job_order(&wf, &None).unwrap_err().message().contains("cycle"));
}

#[test]
fn unknown_jobs_are_named() {
    let wf = workflow(vec![job("a", &[]), job("b", &["x"])]);
    assert_eq!(
        validate_needs(&wf).unwrap_err().message(),
        "job `b` needs `x`, which is not a defined job"
    );
    assert_eq!(
        job_order(&wf, &Some("z".into())).unwrap_err().message(),
        "job `z` not found; available jobs: a, b"
    );
    assert_eq!(job_order(&wf, &Some("b".into())).unwrap(), vec!["b"]);
}

fn drive(
    wf: &Workflow,
    only: Option<&str>,
    results: &[(&str, JobStatus, bool)],
) -> (Vec<String>, i32) {
    let s = surroundings();
    let mut run: Run = run_workflow(wf, &only.map(String::from)).unwrap();
    let mut out = Vec::new();
    let mut next = results.iter();
    loop {
        match run.advance(wf, &s).unwrap() {
            Action::Quiet => {}
            Action::Print(l) => out.push(l),
            Action::Done(code) => return (out, code),
            Action::RunJob { id, line, .. } => {
                out.push(line);
                let (want, status, quit) = next.next().expect("another job");
                assert_eq!(*want, id);
                if let Some(l) = run.job_ended(wf, *status, *quit) {
                    out.push(l);
                }
            }
        }
    }
}

#[test]
fn jobs_run_in_order_and_set_the_exit_code() {
    let wf = workflow(vec![job("b", &["a"]), job("a", &[])]);
    let ok = JobStatus::Success;
    assert_eq!(
        drive(&wf, None, &[("a", ok, false), ("b", ok, false)]),
        (strings(&["\n● job a (a)", "\n● job b (b)"]), 0)
    );
    assert_eq!(
        drive(&wf, None, &[("a", JobStatus::Failure, false)]),
        (
            strings(&[
                "\n● job a (a)",
                "\n● job b: skipped (a needed job did not succeed)"
            ]),
            1
        )
    );
    assert_eq!(drive(&wf, Some("b"), &[("b", ok, false)]).1, 0);
}

#[test]
fn leaving_a_run_is_130_unless_something_failed() {
    let wf = workflow(vec![job("a", &[]), job("b", &[])]);
    assert_eq!(
        drive(&wf, None, &[("a", JobStatus::Success, true)]),
        (
            strings(&["\n● job a (a)", "\n(quit — remaining jobs not run)"]),
            130
        )
    );
    assert_eq!(drive(&wf, None, &[("a", JobStatus::Failure, true)]).1, 1);
}

#[test]
fn combinations_run_and_fail_fast() {
    let mut a = job("a", &[]);
    a.name = Some("Build".into());
    a.strategy = Some(Strategy {
        matrix: Some(matrix(&[("os", &["x", "y"]), ("v", &["1"])], &[], &[])),
        fail_fast: true,
    });
    let mut b = job("b", &["a"]);
    b.if_cond = Some("always() && needs.a.result == 'failure'".into());
    let mut c = job("c", &[]);
    c.strategy = Some(Strategy {
        matrix: Some(matrix(&[("v", &[])], &[], &[])),
        fail_fast: true,
    });
    let wf = workflow(vec![a, b, c]);
    assert_eq!(
        drive(
            &wf,
            None,
            &[("a", JobStatus::Failure, false), ("b", JobStatus::Success, false)]
        ),
        (
            strings(&[
                "\n● job a [x, 1] (Build)",
                "  (fail-fast: skipping the remaining matrix combinations)",
                "\n● job b (b)",
                "\n● job c: skipped (matrix produced no combinations)",
            ]),
            1
        )
    );
}

#[test]
fn combinations_are_skipped_by_condition() {
    let mut a = job("a", &[]);
    a.strategy = Some(Strategy {
        matrix: Some(matrix(&[("os", &["x", "y"])], &[], &[])),
        fail_fast: false,
    });
    a.if_cond = Some("matrix.os == 'y'".into());
    let wf = workflow(vec![a]);
    assert_eq!(
        drive(&wf, None, &[("a", JobStatus::Success, false)]),
        (
            strings(&[
                "\n● job a [x]: skipped (if condition false)",
                "\n● job a [y] (a)"
            ]),
            0
        )
    );
    let mut run = run_workflow(&wf, &None).unwrap();
    let s = surroundings();
    loop {
        match run.advance(&wf, &s).unwrap() {
            Action::RunJob { .. } => {
                run.job_ended(&wf, JobStatus::Success, false);
            }
            Action::Done(_) => break,
            _ => {}
        }
    }
    assert_eq!(run.results, IndexMap::from([("a".to_string(), JobResult::Success)]));
}

#[test]
fn workflows_are_copied_whole() {
    let mut one = job("a", &[]);
    one.strategy = Some(Strategy {
        matrix: Some(matrix(&[("os", &["linux", "mac"])], &[&[("os", "mac")]], &[&[("x", "1")]])),
        fail_fast: false,
    });
    one.steps.push(Step {
        continue_on_error: Conditional::Expr("${{ true }}".to_string()),
        action: StepAction::Uses {
            action: "a/b@v1".to_string(),
            with: map(&[("k", "v")]),
        },
        ..step(Some("s"), "true")
    });
    let mut wf = workflow(vec![one, job("b", &["a"])]);
    wf.defaults.shell = Some("bash".to_string());
    let copy = wf.clone();
    assert_eq!(format!("{copy:?}"), format!("{wf:?}"));
    wf.jobs.clear();
    assert_eq!(copy.jobs.len(), 2);
    assert_eq!(copy.jobs["b"].needs, strings(&["a"]));
}

#[test]
fn lines_are_masked_by_any_list() {
    let line = "a secret: abc, é";
    for masks in [vec![], vec!["abc"], vec!["a"], vec!["é", "b"], vec![""], vec!["abc", "", "*"]] {
        let mut want = line.to_string();
        for m in &masks {
            want = want.replace(m, "***");
        }
        assert_eq!(mask_line(line, &strings(&masks)), want, "{masks:?}");
    }
    let c = parse_command("::warning file=f.rs,line=3::ab").unwrap();
    assert_eq!(render_annotation(&c, &strings(&["b"])), "  ⚠ warning (f.rs:3): a***");
}
