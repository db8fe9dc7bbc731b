use grab::registry::{RepoEntry, RepoRegistry};

#[test]
fn test_add_and_remove_repo() {
    let mut registry = RepoRegistry::new("/tmp/central".to_string());
    assert!(registry.add_repo("core", "/tmp/core".to_string()));
    assert!(!registry.add_repo("core", "/tmp/core2".to_string()));
    assert!(registry.repos.contains_key("core"));
    registry.remove_repo("core");
    assert!(!registry.repos.contains_key("core"));
}

#[test]
fn re_registering_replaces_source_and_resets_state() {
    let mut registry = RepoRegistry::new("/c".to_string());
    registry.add_repo("core", "/tmp/core".to_string());
    registry.record_sync("core", 100, 7, Some("main".to_string()));
    registry.add_repo("core", "/tmp/core2".to_string());
    let e = registry.repos.get("core").unwrap();
    assert_eq!(e.source_path, "/tmp/core2");
    assert!(e.active);
    assert_eq!(e.last_sync, None);
    assert_eq!(e.file_count, None);
}

#[test]
fn record_sync_updates_only_that_repo() {
    let mut registry = RepoRegistry::new("/c".to_string());
    registry.add_repo("a", "/a".to_string());
    registry.add_repo("b", "/b".to_string());
    registry.record_sync("a", 42, 3, Some("dev".to_string()));
    registry.record_sync("missing", 1, 1, None);
    let a = registry.repos.get("a").unwrap();
    assert_eq!(a.last_sync, Some(42));
    assert_eq!(a.file_count, Some(3));
    assert_eq!(a.git_branch.as_deref(), Some("dev"));
    assert_eq!(registry.repos.get("b").unwrap().last_sync, None);
    assert_eq!(registry.repos.len(), 2);
}

#[test]
fn source_conflict_names_other_repo() {
    let mut registry = RepoRegistry::new("/c".to_string());
    registry.add_repo("a", "/src/x".to_string());
    assert_eq!(registry.find_source_conflict("/src/x", "b"), Some("a".to_string()));
    assert_eq!(registry.find_source_conflict("/src/x", "a"), None);
    assert_eq!(registry.find_source_conflict("/src/y", "b"), None);
}

#[test]
fn repo_ids_in_registration_order() {
    let mut registry = RepoRegistry::new("/c".to_string());
    registry.add_repo("z", "/z".to_string());
    registry.add_repo("a", "/a".to_string());
    assert_eq!(registry.repo_ids(), vec!["z".to_string(), "a".to_string()]);
    assert_eq!(registry.central_dir, "/c");
}

#[test]
fn source_conflict_compares_path_components() {
    let mut reg = RepoRegistry::new("/central".to_string());
    reg.add_repo("a", "/work/proj".to_string());
    assert_eq!(reg.find_source_conflict("/work/proj/", "b"), Some("a".to_string()));
    assert_eq!(reg.find_source_conflict("/work//./proj", "b"), Some("a".to_string()));
    assert_eq!(reg.find_source_conflict("/work/proj", "a"), None);
    assert_eq!(reg.find_source_conflict("/work/project", "b"), None);
    assert_eq!(reg.find_source_conflict("work/proj", "b"), None);
}

#[test]
fn sync_refusal_names_only_unknown_repos() {
    let mut reg = RepoRegistry::new("/central".to_string());
    reg.add_repo("a", "/work/a".to_string());
    assert_eq!(reg.sync_refusal("a"), None);
    assert_eq!(reg.sync_refusal("zz"), Some("Repo 'zz' not found".to_string()));
}

#[test]
fn inactive_repo_is_still_synced_on_its_own() {
    let mut reg = RepoRegistry::new("/central".to_string());
    reg.repos.insert(
        "off".to_string(),
        RepoEntry {
            id: "off".to_string(),
            source_path: "/work/off".to_string(),
            active: false,
            last_sync: None,
            file_count: None,
            git_branch: None,
        },
    );
    assert_eq!(reg.sync_refusal("off"), None);
}
