use indexmap::IndexMap;
use serde_yaml::Value as Outside;
use stepci::model::{Conditional, Runs, StepAction, Workflow};
use stepci::parse::{
    bool_or_expr, kind_of, normalize_conditional, normalize_runs_on, parse_action, parse_str,
    scalar_map, scalar_to_string, string_or_list, RawAction, RawDefaults, RawInput, RawJob,
    RawRuns, RawStep, RawStrategy, RawWorkflow, Yaml,
};

fn tree(v: &Outside) -> Yaml {
    match v {
        Outside::Null => Yaml::Null,
        Outside::Bool(b) => Yaml::Bool(*b),
        Outside::Number(n) => Yaml::Number(n.to_string()),
        Outside::String(s) => Yaml::Str(s.clone()),
        Outside::Sequence(s) => Yaml::Sequence(s.iter().map(tree).collect()),
        Outside::Mapping(m) => Yaml::Mapping(m.iter().map(|(k, v)| (tree(k), tree(v))).collect()),
        Outside::Tagged(_) => Yaml::Tagged,
    }
}

fn field(v: &Outside, k: &str) -> Option<Yaml> {
    v.get(k).filter(|x| !x.is_null()).map(tree)
}

fn string(v: &Outside, k: &str) -> Option<String> {
    v.get(k).and_then(|x| x.as_str()).map(String::from)
}

fn table(v: &Outside, k: &str) -> Vec<(String, Yaml)> {
    match v.get(k).and_then(|x| x.as_mapping()) {
        Some(m) => m
            .iter()
            .map(|(k, v)| (k.as_str().unwrap().to_string(), tree(v)))
            .collect(),
        None => Vec::new(),
    }
}

fn defaults(v: &Outside) -> RawDefaults {
    let run = v.get("defaults").and_then(|d| d.get("run"));
    RawDefaults {
        shell: run.and_then(|r| string(r, "shell")),
        working_directory: run.and_then(|r| string(r, "working-directory")),
    }
}

fn step(v: &Outside) -> RawStep {
    RawStep {
        id: string(v, "id"),
        name: string(v, "name"),
        if_cond: string(v, "if"),
        env: table(v, "env"),
        working_directory: string(v, "working-directory"),
        shell: string(v, "shell"),
        continue_on_error: field(v, "continue-on-error"),
        run: string(v, "run"),
        uses: string(v, "uses"),
        with: table(v, "with"),
    }
}

fn steps(v: &Outside) -> Vec<RawStep> {
    match v.get("steps").and_then(|s| s.as_sequence()) {
        Some(s) => s.iter().map(step).collect(),
        None => Vec::new(),
    }
}

fn job(v: &Outside) -> RawJob {
    RawJob {
        name: string(v, "name"),
        runs_on: field(v, "runs-on"),
        needs: field(v, "needs"),
        env: table(v, "env"),
        defaults: defaults(v),
        if_cond: string(v, "if"),
        strategy: v.get("strategy").map(|s| RawStrategy {
            matrix: field(s, "matrix"),
            fail_fast: field(s, "fail-fast"),
        }),
        steps: steps(v),
    }
}

fn read(text: &str) -> Result<RawWorkflow, String> {
    let v: Outside = serde_yaml::from_str(text).map_err(|e| e.to_string())?;
    Ok(RawWorkflow {
        name: string(&v, "name"),
        env: table(&v, "env"),
        defaults: defaults(&v),
        jobs: match v.get("jobs").and_then(|j| j.as_mapping()) {
            Some(m) => m
                .iter()
                .map(|(k, v)| (k.as_str().unwrap().to_string(), job(v)))
                .collect(),
            None => Vec::new(),
        },
    })
}

fn parse_text(text: &str) -> Result<Workflow, String> {
    parse_str(text, &read(text))
}

fn parse(text: &str) -> Workflow {
    parse_text(text).expect("should parse")
}

#[test]
fn parses_a_basic_run_workflow() {
    let wf = parse(
        r#"
name: Basic
jobs:
  build:
    runs-on: ubuntu-latest
    steps:
      - name: Say hi
        run: echo hi
"#,
    );
    assert_eq!(wf.name.as_deref(), Some("Basic"));
    let job = wf.job("build").expect("build job");
    assert_eq!(job.runs_on, vec!["ubuntu-latest"]);
    assert_eq!(job.steps.len(), 1);
    match &job.steps[0].action {
        StepAction::Run { script } => assert_eq!(script.trim(), "echo hi"),
        other => panic!("expected run, got {other:?}"),
    }
}

#[test]
fn coerces_scalar_env_values_to_strings() {
    let wf = parse(
        r#"
env:
  A_STRING: hello
  A_NUMBER: 42
  A_BOOL: true
  EMPTY:
jobs:
  j:
    runs-on: x
    steps:
      - run: 'true'
"#,
    );
    assert_eq!(wf.env["A_STRING"], "hello");
    assert_eq!(wf.env["A_NUMBER"], "42");
    assert_eq!(wf.env["A_BOOL"], "true");
    assert_eq!(wf.env["EMPTY"], "");
}

#[test]
fn normalizes_needs_string_and_list() {
    let wf = parse(
        r#"
jobs:
  a:
    runs-on: x
    steps: [{ run: 'true' }]
  b:
    runs-on: x
    needs: a
    steps: [{ run: 'true' }]
  c:
    runs-on: x
    needs: [a, b]
    steps: [{ run: 'true' }]
"#,
    );
    assert_eq!(wf.job("a").unwrap().needs, Vec::<String>::new());
    assert_eq!(wf.job("b").unwrap().needs, vec!["a"]);
    assert_eq!(wf.job("c").unwrap().needs, vec!["a", "b"]);
}

#[test]
fn parses_uses_with_inputs() {
    let wf = parse(
        r#"
jobs:
  j:
    runs-on: x
    steps:
      - uses: actions/checkout@v4
        with:
          fetch-depth: 0
          token: abc
"#,
    );
    match &wf.job("j").unwrap().steps[0].action {
        StepAction::Uses { action, with } => {
            assert_eq!(action, "actions/checkout@v4");
            assert_eq!(with["fetch-depth"], "0");
            assert_eq!(with["token"], "abc");
        }
        other => panic!("expected uses, got {other:?}"),
    }
}

#[test]
fn rejects_step_with_both_run_and_uses() {
    let msg = parse_text(
        r#"
jobs:
  j:
    runs-on: x
    steps:
      - run: echo hi
        uses: actions/checkout@v4
"#,
    )
    .unwrap_err();
    assert!(msg.contains("both `run` and `uses`"), "got: {msg}");
    assert!(msg.contains("step 1"), "should locate the step: {msg}");
}

#[test]
fn rejects_step_with_neither_run_nor_uses() {
    let err = parse_text(
        r#"
jobs:
  j:
    runs-on: x
    steps:
      - name: does nothing
"#,
    )
    .unwrap_err();
    assert!(err.contains("neither `run` nor `uses`"));
}

#[test]
fn rejects_workflow_without_jobs() {
    let err = parse_text("name: no jobs here\n").unwrap_err();
    assert!(err.contains("no `jobs`"));
}

#[test]
fn rejects_empty_file() {
    let err = parse_text("   \n").unwrap_err();
    assert!(err.contains("empty"));
}

#[test]
fn handles_continue_on_error_bool_and_expr() {
    let wf = parse(
        r#"
jobs:
  j:
    runs-on: x
    steps:
      - run: 'true'
        continue-on-error: true
      - run: 'true'
        continue-on-error: ${{ github.event_name == 'push' }}
      - run: 'true'
      - run: 'true'
        continue-on-error: 'yes'
      - run: 'true'
        continue-on-error: 'off'
      - run: 'true'
        continue-on-error: 'no'
"#,
    );
    let steps = &wf.job("j").unwrap().steps;
    assert!(matches!(
        steps[0].continue_on_error,
        Conditional::Bool(true)
    ));
    assert!(matches!(steps[1].continue_on_error, Conditional::Expr(_)));
    assert!(matches!(
        steps[2].continue_on_error,
        Conditional::Bool(false)
    ));
    assert!(
        matches!(steps[3].continue_on_error, Conditional::Bool(true)),
        "`yes` should be Bool(true), got {:?}",
        steps[3].continue_on_error
    );
    assert!(
        matches!(steps[4].continue_on_error, Conditional::Bool(false)),
        "`off` should be Bool(false), got {:?}",
        steps[4].continue_on_error
    );
    assert!(
        matches!(steps[5].continue_on_error, Conditional::Bool(false)),
        "`no` should be Bool(false), got {:?}",
        steps[5].continue_on_error
    );
}

#[test]
fn the_on_trigger_key_does_not_break_parsing() {
    for on in [
        "on: push",
        "on: [push, pull_request]",
        "\"on\": { push: {} }",
    ] {
        let wf = parse(&format!(
            "{on}\njobs:\n  j:\n    runs-on: x\n    steps: [{{ run: 'true' }}]\n"
        ));
        assert!(wf.job("j").is_some(), "failed for `{on}`");
    }
}

#[test]
fn runs_on_group_only_is_not_reported_as_unspecified() {
    let wf = parse(
        "jobs:\n  j:\n    runs-on:\n      group: my-runners\n    steps: [{ run: 'true' }]\n",
    );
    assert_eq!(wf.job("j").unwrap().runs_on, vec!["my-runners"]);
}

#[test]
fn applies_defaults_and_step_overrides() {
    let wf = parse(
        r#"
defaults:
  run:
    shell: bash
    working-directory: ./root
jobs:
  j:
    runs-on: x
    defaults:
      run:
        shell: sh
    steps:
      - run: 'true'
        working-directory: ./sub
"#,
    );
    assert_eq!(wf.defaults.shell.as_deref(), Some("bash"));
    assert_eq!(wf.defaults.working_directory.as_deref(), Some("./root"));
    let job = wf.job("j").unwrap();
    assert_eq!(job.defaults.shell.as_deref(), Some("sh"));
    assert_eq!(job.steps[0].working_directory.as_deref(), Some("./sub"));
}

#[test]
fn reports_line_number_on_malformed_yaml() {
    let msg = parse_text("jobs:\n  j:\n   bad: [unclosed\n").unwrap_err();
    assert!(msg.contains("invalid workflow YAML"), "got: {msg}");
    assert!(
        msg.contains("line ") && msg.contains("column "),
        "error should report a line/column: {msg}"
    );
}

#[test]
fn errors_name_the_place() {
    let bad_env = "jobs:\n  j:\n    runs-on: x\n    steps:\n      - run: x\n        env:\n          A: [1]\n";
    assert_eq!(
        parse_text(bad_env).unwrap_err(),
        "in job `j`: in step 1: step `env` value for `A`: expected a scalar value, found a sequence"
    );
    let bad_needs = "jobs:\n  j:\n    needs: {a: b}\n    steps: [{ run: x }]\n";
    assert_eq!(
        parse_text(bad_needs).unwrap_err(),
        "in job `j`: invalid `needs`: expected a string or list, found a mapping"
    );
    let bad_flag = "jobs:\n  j:\n    steps:\n      - run: x\n        continue-on-error: 3\n";
    assert_eq!(
        parse_text(bad_flag).unwrap_err(),
        "in job `j`: in step 1: invalid `continue-on-error`: must be a boolean or an expression, found a number"
    );
}

#[test]
fn scalars_become_strings() {
    assert_eq!(scalar_to_string(&Yaml::Null).unwrap(), "");
    assert_eq!(scalar_to_string(&Yaml::Bool(false)).unwrap(), "false");
    assert_eq!(scalar_to_string(&Yaml::Number("1.5".into())).unwrap(), "1.5");
    assert_eq!(
        scalar_to_string(&Yaml::Tagged).unwrap_err(),
        "expected a scalar value, found a tagged value"
    );
    let m = scalar_map(
        &vec![("A".into(), Yaml::Str("x".into())), ("B".into(), Yaml::Null)],
        "here",
    )
    .unwrap();
    let want: IndexMap<String, String> = [("A", "x"), ("B", "")]
        .iter()
        .map(|(k, v)| (k.to_string(), v.to_string()))
        .collect();
    assert_eq!(m, want);
    for (v, k) in [
        (Yaml::Null, "null"),
        (Yaml::Bool(true), "boolean"),
        (Yaml::Number("1".into()), "number"),
        (Yaml::Str("s".into()), "string"),
        (Yaml::Sequence(vec![]), "sequence"),
        (Yaml::Mapping(vec![]), "mapping"),
        (Yaml::Tagged, "tagged value"),
    ] {
        assert_eq!(kind_of(&v), k);
    }
}

#[test]
fn lists_and_labels_are_normalized() {
    assert_eq!(string_or_list(&None).unwrap(), Vec::<String>::new());
    assert_eq!(
        string_or_list(&Some(Yaml::Sequence(vec![
            Yaml::Str("a".into()),
            Yaml::Number("2".into())
        ])))
        .unwrap(),
        vec!["a", "2"]
    );
    let labels = Yaml::Mapping(vec![
        (Yaml::Str("group".into()), Yaml::Str("g".into())),
        (
            Yaml::Str("labels".into()),
            Yaml::Sequence(vec![Yaml::Str("l".into()), Yaml::Sequence(vec![])]),
        ),
    ]);
    assert_eq!(normalize_runs_on(&labels), vec!["l"]);
    assert_eq!(normalize_runs_on(&Yaml::Bool(true)), Vec::<String>::new());
}

#[test]
fn boolean_spellings_are_read_as_booleans() {
    for s in ["true", "YES", " on ", "y"] {
        assert!(matches!(bool_or_expr(s.into()), Conditional::Bool(true)), "{s}");
    }
    for s in ["false", "No", "off", "n"] {
        assert!(matches!(bool_or_expr(s.into()), Conditional::Bool(false)), "{s}");
    }
    assert!(matches!(bool_or_expr("maybe".into()), Conditional::Expr(_)));
    assert!(matches!(bool_or_expr("${{ true }}".into()), Conditional::Expr(_)));
    assert!(matches!(
        normalize_conditional(&Some(Yaml::Null)).unwrap(),
        Conditional::Bool(false)
    ));
}

#[test]
fn a_matrix_is_read() {
    let wf = parse(
        "jobs:\n  j:\n    strategy:\n      fail-fast: false\n      matrix:\n        os: [linux, mac]\n        v: [1]\n        exclude:\n          - os: mac\n    steps: [{ run: x }]\n",
    );
    let s = wf.job("j").unwrap().strategy.as_ref().unwrap();
    assert!(!s.fail_fast);
    let m = s.matrix.as_ref().unwrap();
    let dimensions: Vec<(String, Vec<String>)> = m.dimensions.clone().into_iter().collect();
    assert_eq!(
        dimensions,
        vec![
            ("os".to_string(), vec!["linux".to_string(), "mac".to_string()]),
            ("v".to_string(), vec!["1".to_string()]),
        ]
    );
    assert_eq!(m.exclude.len(), 1);
    assert_eq!(m.exclude[0]["os"], "mac");
}

fn no_runs(using: &str) -> RawRuns {
    RawRuns {
        using: using.into(),
        steps: vec![],
        main: None,
        image: None,
        entrypoint: None,
        args: None,
        env: vec![],
    }
}

#[test]
fn actions_are_read_by_how_they_run() {
    let raw = RawAction {
        inputs: vec![(
            "name".into(),
            RawInput {
                default: Some(Yaml::Number("3".into())),
                required: Some(Yaml::Bool(true)),
            },
        )],
        outputs: vec![("out".into(), Some("${{ steps.a.outputs.b }}".into()))],
        runs: no_runs("composite"),
    };
    let def = parse_action(&Ok(raw)).unwrap();
    assert_eq!(def.inputs[0].default.as_deref(), Some("3"));
    assert!(def.inputs[0].required);
    assert!(matches!(def.runs, Runs::Composite { .. }));

    let mut node = no_runs("node20");
    node.main = Some("index.js".into());
    let def = parse_action(&Ok(RawAction {
        inputs: vec![],
        outputs: vec![],
        runs: node,
    }))
    .unwrap();
    assert!(matches!(def.runs, Runs::Node { ref main } if main == "index.js"));

    let mut docker = no_runs("docker");
    docker.image = Some("Dockerfile".into());
    let def = parse_action(&Ok(RawAction {
        inputs: vec![],
        outputs: vec![],
        runs: docker,
    }))
    .unwrap();
    assert!(matches!(def.runs, Runs::Docker { ref image, .. } if image == "Dockerfile"));

    assert!(parse_action(&Err("bad".into()))
        .unwrap_err()
        .starts_with("invalid action YAML: "));
}
