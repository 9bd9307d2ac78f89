use std::hash::{Hash, Hasher};
use stepci::cache::{cache_root, entry_dir, hash_key, home, resolve_path};

#[test]
fn key_hash_is_stable_and_distinct() {
    assert_eq!(entry_dir("/c", "k"), entry_dir("/c", "k"));
    assert_ne!(entry_dir("/c", "deps-abc"), entry_dir("/c", "deps-xyz"));
}

#[test]
fn resolve_relative_is_under_workspace() {
    let ws = "/ws";
    assert_eq!(resolve_path("node_modules", ws, &None), "/ws/node_modules");
    assert_eq!(resolve_path("/abs/path", ws, &None), "/abs/path");
}

#[test]
fn resolve_tilde_expands_to_home() {
    let h = Some("/home/tester".to_string());
    assert_eq!(resolve_path("~/.npm", "/ws", &h), "/home/tester/.npm");
    assert_eq!(resolve_path("~", "/ws", &h), "/home/tester");
    // Without a home directory a tilde is a name like any other.
    assert_eq!(resolve_path("~/x", "/ws", &None), "/ws/~/x");
}

#[test]
fn the_key_is_hashed_as_std_hashes_a_string() {
    for key in ["", "k", "deps-Linux-abc", "ключ"] {
        let mut h = std::collections::hash_map::DefaultHasher::new();
        key.hash(&mut h);
        assert_eq!(hash_key(key), format!("{:x}", h.finish()));
    }
}

#[test]
fn the_cache_is_under_home() {
    assert_eq!(
        cache_root(&Some("/h".to_string())).unwrap(),
        "/h/.cache/stepci/cache"
    );
    assert_eq!(
        cache_root(&None).unwrap_err(),
        "no HOME directory for the cache"
    );
    let profile = Some("C:/u".to_string());
    assert_eq!(home(&None, &profile), profile);
    assert_eq!(
        home(&Some("/h".to_string()), &profile),
        Some("/h".to_string())
    );
}

#[test]
fn entries_lie_under_the_root_by_a_hexadecimal_name() {
    for key in ["", "../../x", "/abs", "deps-Linux-abc"] {
        let name = hash_key(key);
        assert!((1..=16).contains(&name.len()));
        assert!(name.chars().all(|c| matches!(c, '0'..='9' | 'a'..='f')));
        assert_eq!(entry_dir("/c", key), format!("/c/{name}"));
    }
}
