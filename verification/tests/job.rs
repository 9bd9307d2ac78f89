use indexmap::IndexMap;
use stepci::exec::action::{run_composite, CompositeMove};
use stepci::exec::context::{build_github, build_runner, Surroundings};
use stepci::exec::job::{run_job, StepMove};
use stepci::exec::step::read_channels;
use stepci::exec::RunOptions;
use stepci::expr::JobStatus;
use stepci::model::{Conditional, Defaults, Job, Step, StepAction, Workflow};
use stepci::numeral::Numerals;
use stepci::value::Value;

type Strings = IndexMap<String, String>;

fn map(pairs: &[(&str, &str)]) -> Strings {
    pairs
        .iter()
        .map(|(k, v)| (k.to_string(), v.to_string()))
        .collect()
}

fn surroundings() -> Surroundings {
    Surroundings {
        github: build_github("/ws", &None, &None),
        runner: build_runner("linux", "x86_64", "/tmp"),
        secrets: Strings::new(),
        numerals: Numerals::new(),
    }
}

fn step(id: &str, script: &str) -> Step {
    Step {
        id: Some(id.to_string()),
        name: None,
        if_cond: None,
        env: Strings::new(),
        working_directory: None,
        shell: None,
        continue_on_error: Conditional::Bool(false),
        action: StepAction::Run {
            script: script.to_string(),
        },
    }
}

fn job(steps: Vec<Step>) -> Job {
    Job {
        id: "j".into(),
        name: None,
        runs_on: vec![],
        needs: vec![],
        env: map(&[("B", "${{ env.A }}2")]),
        defaults: Defaults::default(),
        if_cond: None,
        strategy: None,
        steps,
    }
}

fn workflow() -> Workflow {
    Workflow {
        name: None,
        env: map(&[("A", "1")]),
        defaults: Defaults::default(),
        jobs: IndexMap::new(),
    }
}

fn opts(step_all: bool, breakpoints: &[&str]) -> RunOptions {
    RunOptions {
        job: None,
        workspace: "/ws".into(),
        step_all,
        breakpoints: breakpoints.iter().map(|s| s.to_string()).collect(),
        secrets: Strings::new(),
    }
}

#[test]
fn steps_run_in_order_until_one_fails() {
    let (wf, s, o) = (workflow(), surroundings(), opts(false, &[]));
    let mut cleanup = step("d", "rm");
    cleanup.if_cond = Some("failure()".into());
    let j = job(vec![
        step("a", "echo ${{ env.B }}"),
        step("b", "false"),
        step("c", "never"),
        cleanup,
    ]);
    let mut run = run_job(&wf, &j, &Strings::new(), &s).unwrap();

    let head = run.enter(&j, &s).unwrap();
    assert_eq!(head.as_deref(), Some("  ▸ step 1: echo ${{ env.B }} … "));
    match run.plan(&j, &wf, &s, &o, true).unwrap() {
        StepMove::Script {
            script,
            shell,
            cwd,
            pause,
        } => {
            assert_eq!(script, "echo 12");
            assert_eq!((shell.as_str(), cwd.as_str()), ("bash", "/ws"));
            assert!(!pause);
        }
        other => panic!("got {other:?}"),
    }
    let io = read_channels("X=9", "/p\n/q", "o=1", &vec![("o".into(), "2".into())]).unwrap();
    assert_eq!(run.script_ended(&j, &s, &io, true, 0).unwrap(), "  ✓ step 1 ok");
    assert_eq!(run.state.env, map(&[("A", "1"), ("B", "12"), ("X", "9")]));
    assert_eq!(run.state.path, vec!["/q", "/p"]);
    assert_eq!(run.state.steps.len(), 1);
    match run.state.steps.at(0).unwrap().1 {
        Value::Object(m) => match m.at(0).unwrap() {
            (name, Value::Object(outs)) => {
                assert_eq!(name, "outputs");
                assert_eq!(outs.len(), 1);
                assert_eq!(outs.get("o"), Some(&Value::Str("2".to_string())));
            }
            other => panic!("got {other:?}"),
        },
        other => panic!("got {other:?}"),
    }

    run.enter(&j, &s).unwrap();
    run.plan(&j, &wf, &s, &o, true).unwrap();
    let nothing = read_channels("", "", "", &vec![]).unwrap();
    assert_eq!(
        run.script_ended(&j, &s, &nothing, false, 7).unwrap(),
        "  ✗ step 2 failed (exit 7)"
    );
    assert_eq!(run.state.status, JobStatus::Failure);

    // The third step is passed over, the fourth asks for the failure.
    run.enter(&j, &s).unwrap();
    assert!(matches!(
        run.plan(&j, &wf, &s, &o, true).unwrap(),
        StepMove::Skipped(t) if t == "skipped (if condition false)"
    ));
    assert_eq!(run.next, 3);
    run.enter(&j, &s).unwrap();
    assert!(matches!(
        run.plan(&j, &wf, &s, &o, true).unwrap(),
        StepMove::Script { script, .. } if script == "rm"
    ));
    run.script_ended(&j, &s, &nothing, true, 0).unwrap();
    assert_eq!(run.enter(&j, &s).unwrap(), None);
    assert_eq!(run.state.status, JobStatus::Failure);
}

#[test]
fn a_job_pauses_skips_and_is_left() {
    let (wf, s) = (workflow(), surroundings());
    let mut uses = step("u", "");
    uses.action = StepAction::Uses {
        action: "./x".into(),
        with: map(&[("k", "v")]),
    };
    let j = job(vec![step("a", "one"), uses, step("c", "three")]);
    let mut run = run_job(&wf, &j, &Strings::new(), &s).unwrap();
    let o = opts(false, &["u"]);
    run.enter(&j, &s).unwrap();
    assert!(matches!(
        run.plan(&j, &wf, &s, &o, true).unwrap(),
        StepMove::Script { pause: false, .. }
    ));
    assert_eq!(run.skip(&j), "  ⤼ step 1 skipped by request");
    run.enter(&j, &s).unwrap();
    match run.plan(&j, &wf, &s, &o, true).unwrap() {
        StepMove::Uses {
            action,
            with,
            pause,
        } => {
            assert_eq!(action, "./x");
            assert_eq!(with, map(&[("k", "v")]));
            assert!(pause);
        }
        other => panic!("got {other:?}"),
    }
    let io = read_channels("Y=3", "", "", &vec![]).unwrap();
    run.export(&j, &io);
    let outputs = vec![("o".to_string(), "1".to_string())];
    assert_eq!(
        run.action_ended(&j, &s, false, &outputs).unwrap(),
        "  ✗ step 2 failed"
    );
    assert_eq!(run.state.env["Y"], "3");
    let mut again = run_job(&wf, &j, &Strings::new(), &s).unwrap();
    again.enter(&j, &s).unwrap();
    assert!(matches!(
        again.plan(&j, &wf, &s, &opts(true, &[]), true).unwrap(),
        StepMove::Script { pause: true, .. }
    ));
    again.leave(&j);
    assert!(again.quit);
    assert_eq!(again.enter(&j, &s).unwrap(), None);
    assert_eq!(again.next, 0);
    assert_eq!(again.state.status, JobStatus::Success);
}

#[test]
fn a_job_stays_as_it_is_where_an_expression_fails() {
    let (wf, s, o) = (workflow(), surroundings(), opts(false, &[]));
    let mut bad = step("a", "${{ bogus(1) }}");
    bad.env = map(&[("E", "1")]);
    let mut worse = step("b", "x");
    worse.env = map(&[("E", "${{ 1 +")]);
    let j = job(vec![bad, worse]);
    let mut run = run_job(&wf, &j, &Strings::new(), &s).unwrap();
    run.enter(&j, &s).unwrap();
    assert!(run.plan(&j, &wf, &s, &o, false).is_err());
    assert_eq!(run.next, 0);
    assert!(run.env.is_some());
    run.skip(&j);
    assert!(run.enter(&j, &s).is_err());
    assert!(run.env.is_none());
    assert_eq!(run.next, 1);
    let mut wrong = workflow();
    wrong.env = map(&[("A", "${{")]);
    assert!(run_job(&wrong, &j, &Strings::new(), &s).is_err());
}

#[test]
fn a_composite_action_goes_through_its_steps() {
    let s = surroundings();
    let env = map(&[("E", "1")]);
    let inputs = map(&[("who", "me")]);
    let mut nested = step("n", "");
    nested.action = StepAction::Uses {
        action: "a/b@v1".into(),
        with: Strings::new(),
    };
    let mut never = step("x", "no");
    never.if_cond = Some("false".into());
    let steps = vec![nested, never, step("r", "echo ${{ inputs.who }}")];
    let mut run = run_composite();
    assert_eq!(
        run.enter(&steps, &env, &inputs, &s).unwrap().as_deref(),
        Some("  │ ▹ 1: a/b@v1 … ")
    );
    assert!(matches!(
        run.plan(&steps, &env, &inputs, &s, "/ws").unwrap(),
        CompositeMove::Skipped(t) if t == "skipped (nested `uses: a/b@v1` in composite not supported yet)"
    ));
    run.enter(&steps, &env, &inputs, &s).unwrap();
    assert!(matches!(
        run.plan(&steps, &env, &inputs, &s, "/ws").unwrap(),
        CompositeMove::Skipped(t) if t == "skipped (if)"
    ));
    run.enter(&steps, &env, &inputs, &s).unwrap();
    match run.plan(&steps, &env, &inputs, &s, "/ws").unwrap() {
        CompositeMove::Script { script, env, .. } => {
            assert_eq!(script, "echo me");
            assert_eq!(env, map(&[("E", "1"), ("INPUT_WHO", "me")]));
        }
        other => panic!("got {other:?}"),
    }
    assert_eq!(
        run.script_ended(&steps, &env, &inputs, &s, false, 2, &vec![]).unwrap(),
        "  │   ✗ failed (exit 2)"
    );
    assert_eq!(run.enter(&steps, &env, &inputs, &s).unwrap(), None);
    assert_eq!(run.comp.status, JobStatus::Failure);
    assert_eq!(run.comp.steps.len(), 3);
}

#[test]
fn a_pause_shows_what_is_about_to_run() {
    let one = step("a", "make");
    let j = job(vec![]);
    let wf = workflow();
    let script = |pause: bool| StepMove::Script {
        script: "make".to_string(),
        shell: "sh".to_string(),
        cwd: "/ws/sub".to_string(),
        pause,
    };
    let p = script(true).pause(&one, &j, &wf, "/ws").unwrap();
    assert_eq!((p.script.as_str(), p.shell.as_str(), p.cwd.as_str()), ("make", "sh", "/ws/sub"));
    assert!(script(false).pause(&one, &j, &wf, "/ws").is_none());
    let uses = StepMove::Uses {
        action: "a/b@v1".to_string(),
        with: IndexMap::new(),
        pause: true,
    };
    let p = uses.pause(&one, &j, &wf, "/ws").unwrap();
    assert_eq!((p.script.as_str(), p.shell.as_str(), p.cwd.as_str()), ("uses: a/b@v1", "bash", "/ws"));
    assert!(StepMove::Skipped("skipped".to_string()).pause(&one, &j, &wf, "/ws").is_none());
}
