use grab::cache::{
    strip_repo_prefix, BodyEntry, BodyMeta, DaemonCache, FileEntry, DEFAULT_META_PROMPT, SKELETON_HEADER,
};

fn body(path: &str, loc: usize, text: &str) -> BodyEntry {
    BodyEntry { meta: BodyMeta { filepath: path.to_string(), loc, byte_size: text.len() }, body: text.to_string() }
}

fn file(loc: usize, hashes: &[&str]) -> FileEntry {
    FileEntry {
        loc,
        byte_size: 100,
        body_hashes: hashes.iter().map(|h| h.to_string()).collect(),
        code: "code".to_string(),
    }
}

fn sample() -> DaemonCache {
    let mut c = DaemonCache::default();
    c.files.insert("r/src/a.rs".to_string(), file(10, &["h1", "h2"]));
    c.files.insert("q/b.rs".to_string(), file(4, &["h3"]));
    c.bodies.insert("h1".to_string(), body("r/src/a.rs", 3, "{ 1 }"));
    c.bodies.insert("h2".to_string(), body("r/src/a.rs", 5, "{ 2 }"));
    c.bodies.insert("h3".to_string(), body("q/b.rs", 2, "{ 3 }"));
    c.skeleton_segments.insert("r/src/a.rs".to_string(), "SEG_A".to_string());
    c.skeleton_segments.insert("q/b.rs".to_string(), "SEG_B".to_string());
    c.file_order.push("r/src/a.rs".to_string());
    c.file_order.push("q/b.rs".to_string());
    c.file_order.push("r/readme.md".to_string());
    c.hash_hits.insert("h1".to_string(), 2);
    c.file_hits.insert("r/src/a.rs".to_string(), 5);
    c
}

fn ids() -> Vec<String> {
    vec!["r".to_string(), "q".to_string()]
}

#[test]
fn strip_repo_prefix_removes_known_repo() {
    assert_eq!(strip_repo_prefix("grab/src/main.rs", &["grab".to_string()]), "src/main.rs");
    assert_eq!(strip_repo_prefix("other/src/main.rs", &["grab".to_string()]), "other/src/main.rs");
    assert_eq!(strip_repo_prefix("grabber/x.rs", &["grab".to_string()]), "grabber/x.rs");
}

#[test]
fn strip_repo_prefix_uses_first_matching_id() {
    let ids = vec!["a".to_string(), "a/b".to_string()];
    assert_eq!(strip_repo_prefix("a/b/c.rs", &ids), "b/c.rs");
}

#[test]
fn evict_file_removes_everything_about_the_file() {
    let mut c = sample();
    c.evict_file("r/src/a.rs");
    assert!(!c.files.contains_key("r/src/a.rs"));
    assert!(c.files.contains_key("q/b.rs"));
    assert!(!c.bodies.contains_key("h1"));
    assert!(!c.bodies.contains_key("h2"));
    assert!(c.bodies.contains_key("h3"));
    assert!(!c.hash_hits.contains_key("h1"));
    assert!(!c.skeleton_segments.contains_key("r/src/a.rs"));
    assert!(!c.file_hits.contains_key("r/src/a.rs"));
    assert_eq!(c.file_order, vec!["q/b.rs".to_string(), "r/readme.md".to_string()]);
}

#[test]
fn evicting_twice_changes_nothing_more() {
    let mut c = sample();
    c.evict_file("r/src/a.rs");
    c.evict_file("r/src/a.rs");
    assert_eq!(c.files.len(), 1);
    assert_eq!(c.bodies.len(), 1);
    assert_eq!(c.file_order.len(), 2);
}

#[test]
fn evicting_unknown_path_only_touches_order() {
    let mut c = sample();
    c.file_order.push("x.rs".to_string());
    c.evict_file("x.rs");
    assert_eq!(c.files.len(), 2);
    assert_eq!(c.bodies.len(), 3);
    assert_eq!(c.file_order.len(), 3);
}

#[test]
fn skeleton_for_one_repo() {
    let c = sample();
    let s = c.assemble_skeleton_for_repos(Some("r"), &ids());
    assert_eq!(s, "//--+ file:///src/a.rs [10 LOC | 2 bodies]\nSEG_A");
}

#[test]
fn skeleton_for_all_repos_skips_non_rust() {
    let c = sample();
    let s = c.assemble_skeleton_for_repos(None, &ids());
    assert_eq!(s, "//--+ file:///src/a.rs [10 LOC | 2 bodies]\nSEG_A\n//--+ file:///b.rs [4 LOC | 1 bodies]\nSEG_B");
}

#[test]
fn skeleton_of_file_without_entry_shows_zero() {
    let mut c = DaemonCache::default();
    c.skeleton_segments.insert("z.rs".to_string(), "S".to_string());
    c.file_order.push("z.rs".to_string());
    assert_eq!(c.assemble_skeleton_for_repos(None, &[]), "//--+ file:///z.rs [0 LOC | 0 bodies]\nS");
}

#[test]
fn meta_prompt_default_and_custom() {
    let mut c = DaemonCache::default();
    assert_eq!(c.effective_meta_prompt(), DEFAULT_META_PROMPT);
    c.meta_prompt = "custom".to_string();
    assert_eq!(c.effective_meta_prompt(), "custom");
}

#[test]
fn full_skeleton_response_for_all_and_one_repo() {
    let c = sample();
    let all = c.assemble_full_skeleton_response(7890, "all", &ids());
    assert_eq!(all, format!("{}{}{}", SKELETON_HEADER, c.assemble_skeleton_for_repos(None, &ids()), DEFAULT_META_PROMPT));
    let q = c.assemble_full_skeleton_response(7890, "q", &ids());
    assert_eq!(q, format!("{}//--+ file:///b.rs [4 LOC | 1 bodies]\nSEG_B{}", SKELETON_HEADER, DEFAULT_META_PROMPT));
}

#[test]
fn default_cache_is_empty() {
    let c = DaemonCache::default();
    assert_eq!(c.files.len(), 0);
    assert_eq!(c.bodies.len(), 0);
    assert!(c.file_order.is_empty());
    assert_eq!(c.generation, 0);
}
