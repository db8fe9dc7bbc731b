use grab::sync::{
    branch_from_head, changed_paths, files_differ, removed_paths, skip_dir, skip_source_file,
    sync_action, SyncAction, SyncResult,
};

#[test]
fn junk_directories_are_skipped() {
    assert!(skip_dir("target"));
    assert!(skip_dir(".git"));
    assert!(skip_dir("node_modules"));
    assert!(!skip_dir("src"));
}

#[test]
fn junk_files_are_skipped() {
    assert!(skip_source_file(Some("lock"), Some("Cargo.lock"), Some(10)));
    assert!(skip_source_file(Some("toml"), Some(".hidden.toml"), Some(10)));
    assert!(!skip_source_file(None, Some(".env"), Some(10)));
    assert!(!skip_source_file(Some("example"), Some(".env.example"), Some(10)));
    assert!(skip_source_file(Some("rs"), Some("big.rs"), Some(5_000_001)));
    assert!(!skip_source_file(Some("rs"), Some("main.rs"), Some(5_000_000)));
    assert!(!skip_source_file(Some("rs"), Some("main.rs"), None));
}

#[test]
fn files_differ_by_size_then_time() {
    assert!(files_differ(1, 2, Some(5), Some(5)));
    assert!(files_differ(1, 1, Some(6), Some(5)));
    assert!(!files_differ(1, 1, Some(5), Some(6)));
    assert!(!files_differ(1, 1, Some(5), Some(5)));
    assert!(files_differ(1, 1, None, Some(5)));
}

#[test]
fn sync_actions() {
    assert_eq!(sync_action(false, false), SyncAction::Copy);
    assert_eq!(sync_action(true, true), SyncAction::Update);
    assert_eq!(sync_action(true, false), SyncAction::Keep);
}

#[test]
fn removed_are_mirrored_files_without_source() {
    let source = vec!["src/main.rs".to_string()];
    let dest = vec!["src/main.rs".to_string(), "src/old.rs".to_string()];
    assert_eq!(removed_paths(&source, &dest), vec!["src/old.rs".to_string()]);
}

#[test]
fn changed_paths_are_prefixed_by_repo() {
    let r = SyncResult {
        copied: vec!["a.rs".to_string()],
        updated: vec!["b.rs".to_string()],
        removed: vec!["c.rs".to_string()],
        total_files_in_source: 2,
    };
    assert_eq!(changed_paths("repo", &r), vec!["repo/a.rs".to_string(), "repo/b.rs".to_string(), "repo/c.rs".to_string()]);
}

#[test]
fn branch_from_git_head() {
    assert_eq!(branch_from_head("ref: refs/heads/main\n"), Some("main".to_string()));
    assert_eq!(branch_from_head("0123abcd\n"), None);
    assert_eq!(branch_from_head(""), None);
}
