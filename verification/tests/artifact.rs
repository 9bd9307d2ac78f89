use stepci::artifact::{common_dir_prefix, kind, Kind};

#[test]
fn recognizes_artifact_actions_at_any_version() {
    assert_eq!(kind("actions/upload-artifact@v4"), Some(Kind::Upload));
    assert_eq!(kind("actions/download-artifact@main"), Some(Kind::Download));
    assert_eq!(kind("actions/upload-artifact"), Some(Kind::Upload));
    assert_eq!(kind("actions/checkout@v4"), None);
    assert_eq!(kind("./local"), None);
}

#[test]
fn common_prefix_of_a_single_file_is_its_parent() {
    let files = vec!["/ws/dist/app.js".to_string()];
    assert_eq!(common_dir_prefix(&files), "/ws/dist");
}

#[test]
fn common_prefix_strips_shared_directory() {
    let files = vec![
        "/ws/dist/app.js".to_string(),
        "/ws/dist/sub/b.js".to_string(),
    ];
    // `dist` is shared, so its contents (app.js, sub/b.js) are what's stored.
    assert_eq!(common_dir_prefix(&files), "/ws/dist");
}

#[test]
fn common_prefix_of_disjoint_trees_is_their_ancestor() {
    let files = vec!["/ws/dist/app.js".to_string(), "/ws/build/b.js".to_string()];
    assert_eq!(common_dir_prefix(&files), "/ws");
}

#[test]
fn common_prefix_of_empty_is_empty() {
    assert_eq!(common_dir_prefix(&vec![]), "");
}

#[test]
fn common_prefix_agrees_with_std_components() {
    let cases: Vec<Vec<&str>> = vec![
        vec!["a/b/c", "a/b/d/e"],
        vec!["a//b/./c", "a/b/x"],
        vec!["./a/b", "./a/c"],
        vec!["/x", "/y"],
        vec!["x", "y"],
        vec!["/"],
        vec!["a/../b/c", "a/../b/d"],
    ];
    for files in cases {
        let owned: Vec<String> = files.iter().map(|s| s.to_string()).collect();
        let mut lists: Vec<Vec<std::path::Component>> = Vec::new();
        for f in &files {
            lists.push(
                std::path::Path::new(f)
                    .parent()
                    .unwrap_or(std::path::Path::new(""))
                    .components()
                    .collect(),
            );
        }
        let mut prefix = lists[0].clone();
        for l in &lists {
            let n = prefix.iter().zip(l).take_while(|(a, b)| a == b).count();
            prefix.truncate(n);
        }
        let want: std::path::PathBuf = prefix.iter().collect();
        assert_eq!(
            std::path::PathBuf::from(common_dir_prefix(&owned)),
            want,
            "{files:?}"
        );
    }
}
