use stepci::fetch::{
    cache_root, fetch_plan, git_failure, git_not_started, parse_remote, valid_name, valid_ref,
    valid_subpath, RemoteRef,
};

#[test]
fn parses_remote_references() {
    assert_eq!(
        parse_remote("actions/checkout@v4"),
        Some(RemoteRef {
            owner: "actions".into(),
            repo: "checkout".into(),
            subpath: None,
            git_ref: "v4".into(),
        })
    );
    assert_eq!(
        parse_remote("owner/repo/path/to/action@abc123"),
        Some(RemoteRef {
            owner: "owner".into(),
            repo: "repo".into(),
            subpath: Some("path/to/action".into()),
            git_ref: "abc123".into(),
        })
    );
}

#[test]
fn rejects_non_remote_references() {
    assert_eq!(parse_remote("./local/action"), None); // no `@`
    assert_eq!(parse_remote("actions/checkout"), None); // no ref
    assert_eq!(parse_remote("noslash@v1"), None); // no repo
    assert_eq!(parse_remote("owner/repo@"), None); // empty ref
}

#[test]
fn rejects_unsafe_components() {
    // Git-arg injection: a ref that would be read as a flag.
    assert_eq!(parse_remote("owner/repo@--upload-pack=touch /tmp/x"), None);
    // Path traversal via `..` in any component.
    assert_eq!(parse_remote("../evil/repo@v1"), None);
    assert_eq!(parse_remote("owner/repo@../../etc"), None);
    assert_eq!(parse_remote("owner/repo/..%2f@v1"), None);
    // A normal branch-path ref is still fine.
    assert!(parse_remote("owner/repo@refs/tags/v1.2.3").is_some());
}

#[test]
fn names_refs_and_subpaths_are_checked() {
    assert!(valid_name("a.b-c_D9"));
    assert!(!valid_name("-a"));
    assert!(!valid_name("a/b"));
    assert!(!valid_name(""));
    assert!(valid_ref("feature/x"));
    assert!(!valid_ref("a..b"));
    assert!(valid_subpath("a/b"));
    assert!(!valid_subpath("/a"));
    assert_eq!(parse_remote("o/r/@v1").unwrap().subpath, None);
}

#[test]
fn a_fetch_is_planned_for_the_exact_ref() {
    let r = parse_remote("octo/tool/sub/dir@release/v1").unwrap();
    let p = fetch_plan(&r, "/cache");
    assert_eq!(p.repo_dir, "/cache/octo/tool/release_v1");
    assert_eq!(p.marker, "/cache/octo/tool/release_v1/.git");
    assert_eq!(p.action_dir, "/cache/octo/tool/release_v1/sub/dir");
    assert_eq!(p.commands.len(), 4);
    assert_eq!(p.commands[0], vec!["init", "-q"]);
    assert_eq!(
        p.commands[1],
        vec!["remote", "add", "origin", "https://github.com/octo/tool"]
    );
    assert_eq!(
        p.commands[2],
        vec!["fetch", "-q", "--depth", "1", "origin", "release/v1"]
    );
    assert_eq!(p.commands[3], vec!["checkout", "-q", "FETCH_HEAD"]);
}

#[test]
fn the_action_cache_is_under_home() {
    assert_eq!(
        cache_root(&Some("/home/x".to_string())).unwrap(),
        "/home/x/.cache/stepci/actions"
    );
    assert_eq!(
        cache_root(&None).unwrap_err(),
        "no HOME directory for the action cache"
    );
}

#[test]
fn a_failed_git_command_is_named() {
    let r = parse_remote("a/b@v1").unwrap();
    let args = |v: &[&str]| v.iter().map(|s| s.to_string()).collect::<Vec<String>>();
    assert_eq!(git_failure(&r, &args(&["init", "-q"]), " no\n"), "git init: no");
    assert_eq!(
        git_failure(&r, &args(&["fetch", "-q"]), "gone"),
        "fetching `a/b@v1`: git fetch: gone"
    );
}

#[test]
fn local_paths_are_not_remote() {
    assert_eq!(parse_remote("./local@v1"), None);
    assert_eq!(parse_remote("./owner/repo@v1"), None);
    assert!(parse_remote("owner/repo@v1").is_some());
}

#[test]
fn a_git_that_does_not_start_names_what_was_fetched() {
    let r = parse_remote("a/b@v1").unwrap();
    let args = |v: &[&str]| v.iter().map(|s| s.to_string()).collect::<Vec<String>>();
    assert_eq!(
        git_not_started(&r, &args(&["init", "-q"]), "gone"),
        "failed to run git: gone"
    );
    assert_eq!(
        git_not_started(&r, &args(&["fetch", "-q"]), "gone"),
        "fetching `a/b@v1`: failed to run git: gone"
    );
}
