use gpui_agent::tree_ids::{duplicate_ids, find_all, ids_are_unique, require_unique};

/// `root` > (`dup` "First", `list` > `dup` "Second"), depth-first.
fn dup_tree_ids() -> Vec<String> {
    ["root", "dup", "list", "dup"].iter().map(|s| s.to_string()).collect()
}

#[test]
fn find_all_returns_every_duplicate_in_dfs_order() {
    let ids = dup_tree_ids();
    assert_eq!(find_all(&ids, "dup"), vec![1, 3]);
    assert_eq!(duplicate_ids(&ids), vec!["dup".to_string()]);
    assert!(!ids_are_unique(&ids));
}

#[test]
fn require_id_zero_is_not_found() {
    let ids = dup_tree_ids();
    let err = require_unique(&ids, "missing").unwrap_err();
    assert!(err.contains("not found"), "{err}");
    assert!(err.contains("missing"), "{err}");
}

#[test]
fn require_id_many_is_duplicate_error() {
    let ids = dup_tree_ids();
    let err = require_unique(&ids, "dup").unwrap_err();
    assert!(err.contains("duplicate id"), "{err}");
    assert!(err.contains("2 nodes"), "{err}");
    assert_eq!(require_unique(&ids, "root").unwrap(), 0);
}

#[test]
fn duplicates_come_sorted_and_once() {
    let ids: Vec<String> = ["b", "a", "b", "c", "a", "b", "ä"].iter().map(|s| s.to_string()).collect();
    assert_eq!(duplicate_ids(&ids), vec!["a".to_string(), "b".to_string()]);
    let unique: Vec<String> = ["x", "y"].iter().map(|s| s.to_string()).collect();
    assert!(ids_are_unique(&unique));
    assert!(ids_are_unique(&Vec::new()));
}
