use indexmap::IndexMap;
use stepci::diff::{Entry, EnvDiff, FsDiff};
use stepci::digest::hash_bytes;
use stepci::model::{Conditional, Step, StepAction};
use stepci::record::{
    blobs_dir, file_changes, file_content, gc_blobs, is_hashed, list, nth_recent, opt_code, prune,
    run_dir, runs_dir, skipped_record, step_changes, step_kind, step_record, trace, wants_hash,
    FileChange, JobRecord, RunRecord, StepRecord, FORMAT_VERSION, MAX_RUNS,
};

fn run_of(steps: Vec<StepRecord>) -> RunRecord {
    RunRecord {
        format_version: FORMAT_VERSION,
        stepci_version: "x".into(),
        workflow: "w".into(),
        started_unix_ms: 1,
        exit_code: 0,
        jobs: vec![JobRecord {
            id: "j".into(),
            name: None,
            matrix: String::new(),
            status: "success".into(),
            steps,
        }],
    }
}

fn change(path: &str, status: &str, hash: Option<&str>) -> FileChange {
    FileChange {
        path: path.into(),
        status: status.into(),
        dir_files: None,
        hash: hash.map(String::from),
    }
}

#[test]
fn step_changes_reports_outcome_env_and_file_divergences() {
    let a = StepRecord {
        outcome: "failure".into(),
        exit_code: Some(1),
        env_added: vec![("V".into(), "1".into())],
        files: vec![
            change("out/app", "modified", Some("aaa")),
            change("out/log", "modified", Some("h1")),
        ],
        failure: Some("failed at line 2: cp x y (exit 1)".into()),
        ..Default::default()
    };
    let b = StepRecord {
        outcome: "success".into(),
        exit_code: Some(0),
        env_added: vec![("V".into(), "2".into())],
        files: vec![
            change("out/app", "added", None),
            change("out/log", "modified", Some("h2")),
        ],
        ..Default::default()
    };
    let d = step_changes(&a, &b);
    assert!(d.iter().any(|l| l == "outcome: failure → success"));
    assert!(d.iter().any(|l| l == "exit: 1 → 0"));
    assert!(d.iter().any(|l| l.starts_with("failure:")));
    assert!(d.iter().any(|l| l == "env V: set to 1 → set to 2"));
    // Different status is always a divergence.
    assert!(d.iter().any(|l| l == "file out/app: modified → added"));
    // Same status but different content hash → "content differs".
    assert!(d
        .iter()
        .any(|l| l == "file out/log: modified, content differs"));

    // Identical steps → no changes (same status + same hash isn't a diff).
    assert!(step_changes(&a, &a).is_empty());
}

#[test]
fn trace_follows_an_env_var_and_a_file_across_steps() {
    let step = |number: usize, label: &str, s: StepRecord| StepRecord {
        number,
        label: label.into(),
        ..s
    };
    let run = run_of(vec![
        step(
            1,
            "Configure",
            StepRecord {
                env_added: vec![("VERSION".into(), "1.0.0".into())],
                ..Default::default()
            },
        ),
        step(
            2,
            "Build",
            StepRecord {
                files: vec![FileChange {
                    path: "out/app".into(),
                    status: "added".into(),
                    ..Default::default()
                }],
                ..Default::default()
            },
        ),
        step(
            3,
            "Bump",
            StepRecord {
                env_changed: vec![("VERSION".into(), "1.0.0".into(), "2.0.0".into())],
                ..Default::default()
            },
        ),
    ]);
    // VERSION: two writes, in order.
    let v = trace(&run, "VERSION");
    assert_eq!(v.len(), 2);
    assert_eq!((v[0].step, v[0].effect.as_str()), (1, "set it to 1.0.0"));
    assert_eq!(
        (v[1].step, v[1].effect.as_str()),
        (3, "changed it 1.0.0 → 2.0.0")
    );
    // A file.
    let f = trace(&run, "out/app");
    assert_eq!(f.len(), 1);
    assert_eq!((f[0].step, f[0].effect.as_str()), (2, "created the file"));
    // Nothing.
    assert!(trace(&run, "NOPE").is_empty());
}

#[test]
fn trace_shows_removals_path_additions_and_file_fates() {
    let run = run_of(vec![StepRecord {
        number: 4,
        label: "L".into(),
        env_removed: vec!["N".into()],
        path_added: vec!["N".into()],
        files: vec![change("N", "removed", None), change("N", "modified", None)],
        ..Default::default()
    }]);
    let effects: Vec<String> = trace(&run, "N").into_iter().map(|t| t.effect).collect();
    assert_eq!(
        effects,
        vec![
            "removed it from the env",
            "prepended it to PATH",
            "removed the file",
            "modified the file"
        ]
    );
}

#[test]
fn changes_are_sorted_and_absences_are_dashes() {
    let a = StepRecord {
        env_removed: vec!["Z".into()],
        env_changed: vec![("B".into(), "0".into(), "1".into())],
        files: vec![change("b", "added", None)],
        ..Default::default()
    };
    let b = StepRecord {
        exit_code: Some(2),
        env_added: vec![("A".into(), "x".into())],
        files: vec![change("a", "removed", None)],
        ..Default::default()
    };
    assert_eq!(
        step_changes(&a, &b),
        vec![
            "exit: — → 2",
            "env A: — → set to x",
            "env B: changed to 1 → —",
            "env Z: removed → —",
            "file a: — → removed",
            "file b: added → —",
        ]
    );
    assert_eq!(opt_code(None), "—");
    assert_eq!(opt_code(Some(-7)), "-7");
}

#[test]
fn the_last_write_decides_what_is_left_of_a_file() {
    let one = run_of(vec![
        StepRecord {
            files: vec![change("f", "added", Some("h1"))],
            ..Default::default()
        },
        StepRecord {
            files: vec![change("f", "modified", Some("h2")), change("g", "added", Some("h3"))],
            ..Default::default()
        },
    ]);
    assert_eq!(file_content(&one, "f"), Some("h2".to_string()));
    assert_eq!(file_content(&one, "nope"), None);
    let gone = run_of(vec![
        StepRecord {
            files: vec![change("f", "added", Some("h1"))],
            ..Default::default()
        },
        StepRecord {
            files: vec![change("f", "removed", None)],
            ..Default::default()
        },
    ]);
    assert_eq!(file_content(&gone, "f"), None);
}

#[test]
fn recordings_are_listed_newest_first() {
    let mut runs = Vec::new();
    for (ms, version) in [(5u128, 2u32), (9, 2), (7, 1), (6, 2)] {
        let mut r = run_of(vec![]);
        r.started_unix_ms = ms;
        r.format_version = version;
        runs.push(r);
    }
    let times: Vec<u128> = list(runs.clone())
        .into_iter()
        .map(|r| r.started_unix_ms)
        .collect();
    assert_eq!(times, vec![9, 6, 5]);
    assert_eq!(nth_recent(runs.clone(), 0).unwrap().started_unix_ms, 9);
    assert_eq!(nth_recent(runs.clone(), 1).unwrap().started_unix_ms, 9);
    assert_eq!(nth_recent(runs.clone(), 3).unwrap().started_unix_ms, 5);
    assert!(nth_recent(runs, 4).is_none());
}

#[test]
fn fewer_than_n_recordings_are_later_than_the_nth() {
    let at = |ms: u128| RunRecord {
        started_unix_ms: ms,
        ..run_of(vec![])
    };
    let times = [30, 10, 50, 20, 40];
    for n in 1..=5 {
        let r = nth_recent(times.iter().map(|t| at(*t)).collect(), n).unwrap();
        let later = times.iter().filter(|t| **t > r.started_unix_ms).count();
        assert_eq!(later, n - 1);
    }
}

#[test]
fn pruning_drops_the_oldest_beyond_the_cap() {
    let mut names: Vec<String> = (0..MAX_RUNS + 2).map(|i| (1000 + i).to_string()).collect();
    names.reverse();
    names.push("not-a-time".to_string());
    assert_eq!(prune(&names), vec!["1000", "1001"]);
    assert!(prune(&names[..MAX_RUNS].to_vec()).is_empty());
}

#[test]
fn unreferenced_contents_are_found() {
    let run = run_of(vec![StepRecord {
        files: vec![change("f", "added", Some("keep"))],
        ..Default::default()
    }]);
    let names = vec!["keep".to_string(), "drop".to_string()];
    assert_eq!(gc_blobs(&names, &vec![run]), vec!["drop"]);
}

#[test]
fn recordings_live_under_home() {
    let h = Some("/h".to_string());
    assert_eq!(runs_dir(&h).unwrap(), "/h/.cache/stepci/runs");
    assert_eq!(blobs_dir(&h).unwrap(), "/h/.cache/stepci/blobs");
    assert_eq!(
        runs_dir(&None).unwrap_err(),
        "no HOME directory for the stepci cache"
    );
    assert_eq!(run_dir("/r", 1_734_000_000_123), "/r/1734000000123");
    assert!(is_hashed(true, 26_214_400));
    assert!(!is_hashed(true, 26_214_401));
    assert!(!is_hashed(false, 1));
}

#[test]
fn contents_are_hashed_with_sha256() {
    assert_eq!(
        hash_bytes(&b"abc".to_vec()),
        "ba7816bf8f01cfea414140de5dae2223b00361a396177a9cb410ff61f20015ad"
    );
    assert_eq!(
        hash_bytes(&Vec::new()),
        "e3b0c44298fc1c149afbf4c8996fb92427ae41e4649b934ca495991b7852b855"
    );
}

fn step(action: StepAction) -> Step {
    Step {
        id: None,
        name: Some("Build".into()),
        if_cond: None,
        env: IndexMap::new(),
        working_directory: None,
        shell: None,
        continue_on_error: Conditional::Bool(false),
        action,
    }
}

fn touched() -> FsDiff {
    FsDiff {
        added: vec![Entry::Dir("node_modules".into(), 3), Entry::File("new".into())],
        removed: vec![Entry::File("gone".into())],
        modified: vec!["src/a".into()],
        truncated: false,
    }
}

#[test]
fn only_single_files_that_are_there_are_hashed() {
    let files = file_changes(&touched());
    let found: Vec<(&str, &str, Option<usize>, bool)> = files
        .iter()
        .map(|f| (f.path.as_str(), f.status.as_str(), f.dir_files, wants_hash(f)))
        .collect();
    assert_eq!(
        found,
        vec![
            ("node_modules", "added", Some(3), false),
            ("new", "added", None, true),
            ("gone", "removed", None, false),
            ("src/a", "modified", None, true),
        ]
    );
}

#[test]
fn a_step_is_recorded_without_its_secrets() {
    let one = step(StepAction::Uses {
        action: "octo/tool@v1".into(),
        with: IndexMap::new(),
    });
    let env = EnvDiff {
        added: vec![("A".into(), "hunter22!".into())],
        changed: vec![("B".into(), "hunter22".into(), "2".into())],
        removed: vec!["C".into()],
        path_added: vec!["/hunter22/bin".into()],
    };
    let mut secrets = IndexMap::new();
    secrets.insert("TOKEN".to_string(), "hunter22".to_string());
    let h = |s: &str| Some(s.to_string());
    let hashes = vec![h("dir"), h("h1"), h("old"), None];
    let r = step_record(&one, 2, false, Some(7), &env, &touched(), &hashes, &secrets);
    assert_eq!((r.number, r.label.as_str(), r.kind.as_str()), (2, "Build", "uses:octo/tool@v1"));
    assert_eq!((r.outcome.as_str(), r.exit_code), ("failure", Some(7)));
    assert_eq!(r.env_added, vec![("A".into(), "***!".into())]);
    assert_eq!(r.env_changed, vec![("B".into(), "***".into(), "2".into())]);
    assert_eq!(r.env_removed, vec!["C".to_string()]);
    assert_eq!(r.path_added, vec!["/***/bin".to_string()]);
    let kept: Vec<Option<&str>> = r.files.iter().map(|f| f.hash.as_deref()).collect();
    assert_eq!(kept, vec![None, Some("h1"), None, None]);
    assert!(!r.files_truncated && r.failure.is_none() && r.skip_reason.is_empty());
    let fine = step_record(&one, 2, true, None, &EnvDiff::default(), &FsDiff::default(), &vec![], &secrets);
    assert_eq!(fine.outcome, "success");
    assert!(fine.files.is_empty());
}

#[test]
fn a_skipped_step_is_recorded_with_the_reason() {
    let one = step(StepAction::Run { script: "make".into() });
    let r = skipped_record(&one, 3, "if condition false");
    assert_eq!(step_kind(&one), "run");
    assert_eq!((r.number, r.kind.as_str(), r.outcome.as_str()), (3, "run", "skipped"));
    assert_eq!(r.skip_reason, vec!["if condition false".to_string()]);
    assert!(r.exit_code.is_none() && r.files.is_empty() && r.env_added.is_empty());
}

#[test]
fn changes_are_as_many_from_either_side() {
    let a = StepRecord {
        outcome: "failure".into(),
        env_added: vec![("V".into(), "1".into()), ("W".into(), "1".into())],
        files: vec![change("x", "added", Some("h")), change("y", "added", None)],
        ..Default::default()
    };
    let b = StepRecord {
        outcome: "success".into(),
        env_added: vec![("V".into(), "2".into())],
        env_removed: vec!["U".into()],
        files: vec![change("x", "added", Some("g"))],
        ..Default::default()
    };
    assert_eq!(step_changes(&a, &b).len(), 6);
    assert_eq!(step_changes(&b, &a).len(), 6);
}
