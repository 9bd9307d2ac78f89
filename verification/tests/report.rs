use stepci::record::{
    FileChange, JobRecord, RunRecord, StepRecord, FORMAT_VERSION, MAX_HASH_BYTES,
};
use stepci::report::{
    compare_runs, content_changes, content_diff_lines, diff_runs, list_runs, no_content, no_run,
    outcome_word, pick_two, plural, relative_time, render_step, show_changes, show_run,
    stored_content,
    wanted_blobs, Content, LineChange, LineTag,
};

fn change(path: &str, status: &str, hash: Option<&str>) -> FileChange {
    FileChange {
        path: path.into(),
        status: status.into(),
        dir_files: None,
        hash: hash.map(String::from),
    }
}

fn step(number: usize, label: &str, outcome: &str) -> StepRecord {
    StepRecord {
        number,
        label: label.into(),
        kind: "run".into(),
        outcome: outcome.into(),
        ..Default::default()
    }
}

fn job(id: &str, matrix: &str, steps: Vec<StepRecord>) -> JobRecord {
    JobRecord {
        id: id.into(),
        name: None,
        matrix: matrix.into(),
        status: "success".into(),
        steps,
    }
}

fn run(exit_code: i32, started: u128, jobs: Vec<JobRecord>) -> RunRecord {
    RunRecord {
        format_version: FORMAT_VERSION,
        stepci_version: "0.1.0".into(),
        workflow: "ci.yml".into(),
        started_unix_ms: started,
        exit_code,
        jobs,
    }
}

#[test]
fn ages_are_coarse() {
    let at = |secs: u128| relative_time(1_000_000_000 + secs * 1000, 1_000_000_000);
    assert_eq!(at(0), "just now");
    assert_eq!(at(4), "just now");
    assert_eq!(at(5), "5s ago");
    assert_eq!(at(59), "59s ago");
    assert_eq!(at(60), "1m ago");
    assert_eq!(at(3599), "59m ago");
    assert_eq!(at(3600), "1h ago");
    assert_eq!(at(86399), "23h ago");
    assert_eq!(at(86400), "1d ago");
    assert_eq!(at(86400 * 45), "45d ago");
    // A time to come.
    assert_eq!(relative_time(5, 10), "just now");
}

#[test]
fn words_and_endings() {
    assert_eq!(plural(0), "s");
    assert_eq!(plural(1), "");
    assert_eq!(plural(2), "s");
    assert_eq!(outcome_word(0), "✓ passed");
    assert_eq!(outcome_word(130), "✗ failed");
    assert_eq!(no_run(3), "no run #3 — `stepci runs` lists what's recorded");
    assert_eq!(
        no_content("a.txt", 2),
        "`a.txt` wasn't captured in run #2 (not changed by a step, too large, or a directory)"
    );
}

#[test]
fn runs_are_listed() {
    assert_eq!(
        list_runs(&vec![], 0),
        vec!["No recorded runs yet — run `stepci run <workflow>` first."]
    );
    let runs = vec![
        run(0, 1000, vec![job("a", "", vec![step(1, "x", "success")])]),
        run(
            1,
            0,
            vec![
                job("a", "", vec![step(1, "x", "success")]),
                job("b", "", vec![step(1, "y", "failure")]),
            ],
        ),
    ];
    assert_eq!(
        list_runs(&runs, 61_000),
        vec![
            "  #1   ✓  ci.yml  (1m ago, 1 job, 1 step)",
            "  #2   ✗  ci.yml  (1m ago, 2 jobs, 2 steps)",
            "\nRe-open one with `stepci show <n>` (default: the most recent).",
        ]
    );
}

#[test]
fn a_run_is_shown_in_full() {
    let mut a = step(1, "Compile", "failure");
    a.failure = Some("exit 1".into());
    a.env_added = vec![("V".into(), "1".into())];
    a.env_changed = vec![("W".into(), "1".into(), "2".into())];
    a.env_removed = vec!["X".into()];
    a.path_added = vec!["/p".into()];
    let mut dir = change("out", "added", None);
    dir.dir_files = Some(3);
    a.files = vec![dir, change("gone", "removed", None), change("m", "modified", None)];
    a.files_truncated = true;
    let mut b = step(2, "Deploy", "skipped");
    b.skip_reason = vec!["if condition false".into()];
    let mut j = job("build", " [linux]", vec![a, b]);
    j.name = Some("Build".into());
    assert_eq!(
        show_run(&run(1, 0, vec![j]), 0),
        vec![
            "● recording of `ci.yml` — just now, ✗ failed",
            "\n● job build [linux] (Build)",
            "  ✗ step 1: Compile",
            "      ↳ exit 1",
            "    env:",
            "      + V = 1",
            "      ~ W: 1 → 2",
            "      - X",
            "      + PATH ⊕ /p",
            "    files:",
            "      + out/ (3 files)",
            "      - gone",
            "      ~ m",
            "    (filesystem diff was skipped: workspace too large)",
            "  ⤼ step 2: Deploy",
            "      if condition false",
        ]
    );
    assert_eq!(render_step(&step(7, "ok", "success")), vec!["  ✓ step 7: ok"]);
    let head = &show_run(&run(0, 0, vec![job("j", "", vec![])]), 0)[1];
    assert_eq!(head, "\n● job j (j)");
}

#[test]
fn changed_lines_are_shown_up_to_a_limit() {
    let line = |tag, text: &str| LineChange {
        tag,
        text: text.into(),
    };
    assert_eq!(
        show_changes(&vec![
            line(LineTag::Equal, "same\n"),
            line(LineTag::Delete, "old\n"),
            line(LineTag::Insert, "new\n\n"),
        ]),
        vec!["          - old", "          + new"]
    );
    let many: Vec<LineChange> = (0..50).map(|i| line(LineTag::Insert, &format!("{i}\n"))).collect();
    let shown = show_changes(&many);
    assert_eq!(shown.len(), 41);
    assert_eq!(shown[39], "          + 39");
    assert_eq!(shown[40], "          … (diff truncated)");
    let exact: Vec<LineChange> = (0..40).map(|i| line(LineTag::Insert, &format!("{i}\n"))).collect();
    assert_eq!(show_changes(&exact).len(), 40);
}

#[test]
fn contents_that_differ_are_compared_line_by_line() {
    let mut a = step(1, "s", "success");
    let mut b = step(1, "s", "success");
    a.files = vec![
        change("t", "modified", Some("h1")),
        change("b", "modified", Some("h3")),
        change("same", "modified", Some("h5")),
        change("only-a", "modified", Some("h6")),
        change("lost", "modified", Some("h8")),
    ];
    b.files = vec![
        change("t", "modified", Some("h2")),
        change("b", "modified", Some("h4")),
        change("same", "modified", Some("h5")),
        change("lost", "modified", Some("h9")),
    ];
    let blobs = vec![
        ("h1".to_string(), Content::Plain("a\nb\nc\n".into())),
        ("h2".to_string(), Content::Plain("a\nB\nc\n".into())),
        ("h3".to_string(), Content::Binary),
        ("h4".to_string(), Content::Plain("x".into())),
        ("h8".to_string(), Content::Plain("x".into())),
    ];
    assert_eq!(
        content_changes(&a, &b),
        vec![
            ("t".into(), "h1".into(), "h2".into()),
            ("b".into(), "h3".into(), "h4".into()),
            ("lost".into(), "h8".into(), "h9".into()),
        ]
    );
    assert_eq!(
        content_diff_lines(&a, &b, &blobs),
        vec![
            "        ─ t ─",
            "          - b",
            "          + B",
            "        ─ b ─ (binary content differs)",
        ]
    );
}

#[test]
fn two_runs_are_compared() {
    let mut sa = step(1, "Build", "success");
    sa.env_added = vec![("V".into(), "1".into())];
    sa.files = vec![change("f", "modified", Some("h1"))];
    let mut sb = step(1, "Make", "success");
    sb.env_added = vec![("V".into(), "2".into())];
    sb.files = vec![change("f", "modified", Some("h2"))];
    let a = run(
        0,
        0,
        vec![
            job("build", "", vec![sa, step(2, "Test", "success")]),
            job("old", " [1]", vec![]),
        ],
    );
    let b = run(1, 0, vec![job("build", "", vec![sb]), job("new", "", vec![])]);
    assert_eq!(wanted_blobs(&a, &b), vec!["h1", "h2"]);
    let blobs = vec![
        ("h1".to_string(), Content::Plain("x\n".into())),
        ("h2".to_string(), Content::Plain("y\n".into())),
    ];
    let lines = compare_runs(&a, &b, 2, 1, 0, &blobs);
    assert_eq!(lines[0], "Comparing #2 (just now) → #1 (just now)   [ci.yml]");
    assert_eq!(lines[1], "  overall: ✓ passed → ✗ failed");
    assert_eq!(lines[2], "  job build:");
    assert_eq!(
        lines[3],
        "    (structure differs: 2 steps → 1 — comparing positionally)"
    );
    assert_eq!(lines[4], "    step 1: Build / Make");
    assert!(lines.contains(&"        ─ f ─".to_string()));
    assert!(lines.contains(&"          - x".to_string()));
    assert!(lines.contains(&"          + y".to_string()));
    assert!(lines.contains(&"    step 2: Test — only in #2".to_string()));
    assert!(lines.contains(&"  job old [1]: only in #2".to_string()));
    assert_eq!(lines.last().unwrap(), "  job new: only in #1");
}

#[test]
fn equal_runs_match() {
    let r = |ms| {
        run(
            0,
            ms,
            vec![job("a", "", vec![step(1, "x", "success"), step(2, "y", "skipped")])],
        )
    };
    let runs = vec![r(2), r(1)];
    assert_eq!(
        diff_runs(&runs, 2, 1, 3, &vec![]).unwrap()[1..].to_vec(),
        vec!["  no differences — the runs match (as far as the recording captured)."]
    );
    assert_eq!(
        diff_runs(&runs, 1, 1, 3, &vec![]).unwrap_err(),
        "pick two different runs (got #1 twice)"
    );
    assert_eq!(
        diff_runs(&runs, 3, 1, 3, &vec![]).unwrap_err(),
        "not enough recorded runs — `stepci runs` lists what's available"
    );
    assert_eq!(pick_two(2, 0, 2).unwrap(), (0, 1));
}

#[test]
fn stored_bytes_are_text_or_binary() {
    let kept = |b: &[u8]| stored_content(b.to_vec());
    assert!(matches!(kept("é\n".as_bytes()), Some(Content::Plain(t)) if t == "é\n"));
    assert!(matches!(kept(b""), Some(Content::Plain(t)) if t.is_empty()));
    for bad in [&b"\xff"[..], b"a\xc3", b"\xc0\x80", b"\xed\xa0\x80", b"\xf4\x90\x80\x80"] {
        assert!(matches!(kept(bad), Some(Content::Binary)), "{bad:?}");
    }
    let most = usize::try_from(MAX_HASH_BYTES).unwrap();
    assert!(matches!(kept(&vec![b'a'; most]), Some(Content::Plain(t)) if t.len() == most));
    assert!(kept(&vec![b'a'; most + 1]).is_none());
}
