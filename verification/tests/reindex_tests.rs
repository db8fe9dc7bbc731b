use grab::cache::DaemonCache;
use grab::config::ScanConfig;
use grab::scanner::{process_file, ProcessedFile};

fn scan(files: &[(&str, &str)]) -> Vec<ProcessedFile> {
    let config = ScanConfig::default();
    files
        .iter()
        .map(|(path, code)| process_file(code, path, config.rule_for(path).unwrap()))
        .collect()
}

#[test]
fn apply_scan_indexes_rust_files_only() {
    let mut c = DaemonCache::default();
    let (found, stale) = c.apply_scan(scan(&[("r/src/a.rs", "fn a() {}"), ("r/Cargo.toml", "x = 1")]));
    assert_eq!(found, 2);
    assert_eq!(stale, 0);
    assert!(c.files.contains_key("r/src/a.rs"));
    assert!(!c.files.contains_key("r/Cargo.toml"));
    assert_eq!(c.file_order, vec!["r/src/a.rs".to_string()]);
    assert!(c.skeleton_segments.contains_key("r/src/a.rs"));
    assert_eq!(c.bodies.len(), 1);
    assert_eq!(c.generation, 1);
}

#[test]
fn apply_scan_evicts_files_not_found_again() {
    let mut c = DaemonCache::default();
    c.apply_scan(scan(&[("r/a.rs", "fn a() {}"), ("r/b.rs", "fn b() {}")]));
    let (found, stale) = c.apply_scan(scan(&[("r/b.rs", "fn b() { 2 }")]));
    assert_eq!(found, 1);
    assert_eq!(stale, 1);
    assert!(!c.files.contains_key("r/a.rs"));
    assert_eq!(c.file_order, vec!["r/b.rs".to_string()]);
    assert_eq!(c.files.get("r/b.rs").unwrap().code, "fn b() { 2 }");
    assert_eq!(c.generation, 2);
    assert!(!c.skeleton_segments.contains_key("r/a.rs"));
}

#[test]
fn apply_scan_keeps_order_of_known_files() {
    let mut c = DaemonCache::default();
    c.apply_scan(scan(&[("b.rs", "fn b() {}"), ("a.rs", "fn a() {}")]));
    c.apply_scan(scan(&[("a.rs", "fn a() {}"), ("c.rs", "fn c() {}"), ("b.rs", "fn b() {}")]));
    assert_eq!(c.file_order, vec!["b.rs".to_string(), "a.rs".to_string(), "c.rs".to_string()]);
}

#[test]
fn evict_files_drops_changed_paths() {
    let mut c = DaemonCache::default();
    c.apply_scan(scan(&[("a.rs", "fn a() {}"), ("b.rs", "fn b() {}")]));
    c.evict_files(&vec!["a.rs".to_string(), "zz.rs".to_string()]);
    assert!(!c.files.contains_key("a.rs"));
    assert!(c.files.contains_key("b.rs"));
    assert_eq!(c.generation, 1);
}

#[test]
fn scanned_body_is_fetched_back_by_its_hash() {
    let mut c = DaemonCache::default();
    let files = scan(&[("r/src/a.rs", "fn alpha() {\n    1\n}\n"), ("r/src/b.rs", "fn beta() {}")]);
    let hash = files[0].bodies[0].0.clone();
    let body = files[0].bodies[0].2.clone();
    c.apply_scan(files);
    let ids = vec!["r".to_string()];
    let r = c.body_reply(&hash, &ids);
    assert_eq!(r.status, 200);
    assert_eq!(r.body, format!("//--+ file:///src/a.rs\n{}", body));
    assert_eq!(body, "{\n    1\n}");
    assert!(r.headers.iter().any(|(k, v)| k == "x-hash" && v == &hash));
}

#[test]
fn body_hashes_are_twelve_hex_digits() {
    let h = grab::stable_hash::stable_hash_body("fn x() {}", "src/x.rs");
    assert_eq!(h.len(), 12);
    assert!(h.chars().all(|c| c.is_ascii_digit() || ('a'..='f').contains(&c)));
    let f = grab::stable_hash::stable_hash_file(b"content");
    assert_eq!(f.len(), 24);
    assert!(f.chars().all(|c| c.is_ascii_digit() || ('a'..='f').contains(&c)));
}
