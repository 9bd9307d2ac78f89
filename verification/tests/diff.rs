use indexmap::IndexMap;
use stepci::diff::{
    env_diff, fs_diff, pruned, Entry, EnvDiff, FileSig, FsDiff, FsSnapshot,
};

fn map(pairs: &[(&str, &str)]) -> IndexMap<String, String> {
    pairs
        .iter()
        .map(|(k, v)| (k.to_string(), v.to_string()))
        .collect()
}

fn sig(size: u64) -> Option<FileSig> {
    Some(FileSig {
        size,
        mtime: Some(1),
    })
}

fn snap(files: &[(&str, u64)], max: usize) -> FsSnapshot {
    let mut s = FsSnapshot::new();
    for (path, size) in files {
        if !s.offer(path, sig(*size), max) {
            break;
        }
    }
    s
}

#[test]
fn env_diff_added_changed_removed_and_path() {
    let before = map(&[("A", "1"), ("B", "2")]);
    let after = map(&[("A", "1"), ("B", "changed"), ("C", "new")]);
    let d = env_diff(
        &before,
        &after,
        &vec!["/old".into()],
        &vec!["/new".into(), "/old".into()],
    );
    assert_eq!(d.added, vec![("C".into(), "new".into())]);
    assert_eq!(d.changed, vec![("B".into(), "2".into(), "changed".into())]);
    assert_eq!(d.removed, Vec::<String>::new());
    assert_eq!(d.path_added, vec!["/new".to_string()]);
}

#[test]
fn env_diff_reports_removals_and_nothing_for_nothing() {
    let before = map(&[("A", "1"), ("B", "2")]);
    let after = map(&[("B", "2")]);
    let d = env_diff(&before, &after, &vec![], &vec![]);
    assert_eq!(d.removed, vec!["A".to_string()]);
    assert!(!d.is_empty());
    assert!(env_diff(&before, &before, &vec!["/x".into()], &vec!["/x".into()]).is_empty());
}

#[test]
fn fs_diff_collapses_new_directory_and_flags_modified() {
    let before = snap(&[("keep.txt", 5)], 100_000);
    let after = snap(
        &[
            ("keep.txt", 19),
            ("node_modules/a.js", 1),
            ("node_modules/pkg/b.js", 1),
            ("node_modules/pkg/c.js", 1),
        ],
        100_000,
    );
    let d = fs_diff(&before, &after);
    assert_eq!(d.added, vec![Entry::Dir("node_modules".into(), 3)]);
    assert_eq!(d.modified, vec!["keep.txt".to_string()]);
    assert!(d.removed.is_empty());
}

#[test]
fn fs_diff_lone_new_file_is_not_collapsed() {
    let before = snap(&[("a.txt", 1)], 100_000);
    let after = snap(&[("a.txt", 1), ("b.txt", 1)], 100_000);
    let d = fs_diff(&before, &after);
    assert_eq!(d.added, vec![Entry::File("b.txt".into())]);
}

#[test]
fn snapshot_skips_git_directory() {
    assert!(pruned(true, ".git"));
    assert!(!pruned(true, "src"));
    let s = snap(&[("real.txt", 1)], 100_000);
    assert!(s.has_file("real.txt"));
    assert!(!s.has_file(".git/config"));
}

#[test]
fn snapshot_truncates_at_cap() {
    let names: Vec<String> = (0..10).map(|i| format!("f{i}.txt")).collect();
    let files: Vec<(&str, u64)> = names.iter().map(|n| (n.as_str(), 1)).collect();
    let s = snap(&files, 5);
    assert!(s.is_truncated());
    assert_eq!(s.count(), 5);
}

#[test]
fn truncated_snapshots_do_not_invent_changes() {
    let first: Vec<String> = (0..30).map(|i| format!("f{i:03}.txt")).collect();
    let second: Vec<String> = (10..60).map(|i| format!("f{i:03}.txt")).collect();
    let a: Vec<(&str, u64)> = first.iter().map(|n| (n.as_str(), 1)).collect();
    let b: Vec<(&str, u64)> = second.iter().map(|n| (n.as_str(), 1)).collect();
    let d = fs_diff(&snap(&a, 20), &snap(&b, 20));
    assert!(d.truncated);
    assert!(
        d.added.is_empty() && d.removed.is_empty() && d.modified.is_empty(),
        "a truncated diff must not invent entries: {d:?}"
    );
}

#[test]
fn regular_file_named_dotgit_is_not_skipped() {
    assert!(!pruned(false, ".git"));
    let s = snap(&[(".git", 22)], 100);
    assert!(s.has_file(".git"));
}

#[test]
fn removed_directories_collapse_too() {
    let before = snap(&[("a/x", 1), ("a/y", 1), ("b", 1)], 100);
    let after = snap(&[("b", 1)], 100);
    let d = fs_diff(&before, &after);
    assert_eq!(d.removed, vec![Entry::Dir("a".into(), 2)]);
    assert!(d.added.is_empty());
}

#[test]
fn files_in_an_old_directory_stay_apart() {
    let before = snap(&[("src/a.rs", 1)], 100);
    let after = snap(&[("src/a.rs", 1), ("src/b.rs", 1), ("src/c.rs", 1)], 100);
    let d = fs_diff(&before, &after);
    assert_eq!(
        d.added,
        vec![Entry::File("src/b.rs".into()), Entry::File("src/c.rs".into())]
    );
}

#[test]
fn the_time_of_a_file_counts() {
    let mut a = FsSnapshot::new();
    let mut b = FsSnapshot::new();
    a.offer("f", Some(FileSig { size: 1, mtime: Some(1) }), 10);
    b.offer("f", Some(FileSig { size: 1, mtime: Some(2) }), 10);
    assert_eq!(fs_diff(&a, &b).modified, vec!["f".to_string()]);
    assert!(fs_diff(&a, &a).is_empty());
}

#[test]
fn a_file_without_metadata_is_passed_over() {
    let mut a = FsSnapshot::new();
    assert!(a.offer("gone", None, 10));
    assert_eq!(a.count(), 0);
}

#[test]
fn paths_are_sorted_by_their_parts() {
    let a = snap(&[], 100);
    let b = snap(&[("a.b", 1), ("a/z", 1), ("A", 1)], 100);
    let d = fs_diff(&a, &b);
    assert_eq!(
        d.added,
        vec![
            Entry::File("A".into()),
            Entry::File("a/z".into()),
            Entry::File("a.b".into()),
        ]
    );
}

#[test]
fn the_difference_swaps_with_its_arguments() {
    let a = snap(
        &[("gone/x", 1), ("gone/y", 1), ("keep", 1), ("src/b", 1), ("src/a", 1)],
        100,
    );
    let b = snap(&[("keep", 1), ("new", 2), ("src/a", 2), ("src/b", 2)], 100);
    let there = fs_diff(&a, &b);
    let back = fs_diff(&b, &a);
    assert_eq!(there.added, vec![Entry::File("new".to_string())]);
    assert_eq!(there.removed, vec![Entry::Dir("gone".to_string(), 2)]);
    assert_eq!(there.modified, vec!["src/a".to_string(), "src/b".to_string()]);
    assert_eq!(back.added, there.removed);
    assert_eq!(back.removed, there.added);
    assert_eq!(back.modified, there.modified);
}

#[test]
fn the_default_difference_is_empty() {
    assert!(EnvDiff::default().is_empty());
    assert!(FsDiff::default().is_empty());
    assert!(!FsDiff::default().truncated);
}
