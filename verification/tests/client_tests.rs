use grab::client::{
    base_url, display_path, format_timestamp, has_repo_prefix, is_content_hash, is_hash, loc_icon,
    partition_fetch_args, resolve_path, should_auto_prefix_src, size_label, strip_hash_prefix, sync_label,
};

#[test]
fn auto_prefix_src_rules() {
    assert!(should_auto_prefix_src("main.rs"));
    assert!(should_auto_prefix_src("daemon/state.rs"));
    assert!(!should_auto_prefix_src("src/main.rs"));
    assert!(!should_auto_prefix_src("core/src/main.rs"));
    assert!(!should_auto_prefix_src("Cargo.toml"));
    assert!(!should_auto_prefix_src("build.rs"));
    assert!(!should_auto_prefix_src("notes.txt"));
}

#[test]
fn repo_prefix_detection() {
    assert!(has_repo_prefix("grab/src/main.rs"));
    assert!(!has_repo_prefix("src/main.rs"));
    assert!(!has_repo_prefix("main.rs"));
    assert!(!has_repo_prefix("v1.2/x.rs"));
}

#[test]
fn resolving_paths() {
    assert_eq!(resolve_path("main.rs", Some("core")), "core/src/main.rs");
    assert_eq!(resolve_path("/lib.rs", None), "src/lib.rs");
    assert_eq!(resolve_path("src/main.rs", Some("core")), "core/src/main.rs");
    assert_eq!(resolve_path("Cargo.toml", Some("core")), "core/Cargo.toml");
    assert_eq!(resolve_path("core/src/main.rs", Some("core")), "core/src/main.rs");
    assert_eq!(resolve_path("api/src/x.rs", Some("core")), "api/src/x.rs");
}

#[test]
fn display_path_hides_active_repo() {
    assert_eq!(display_path("core/src/main.rs", Some("core")), "src/main.rs");
    assert_eq!(display_path("api/src/main.rs", Some("core")), "api/src/main.rs");
    assert_eq!(display_path("api/src/main.rs", None), "api/src/main.rs");
}

#[test]
fn base_url_format() {
    assert_eq!(base_url("127.0.0.1", 7890), "http://127.0.0.1:7890");
}

#[test]
fn timestamps_in_largest_unit() {
    assert_eq!(format_timestamp(100, 130), "30s ago");
    assert_eq!(format_timestamp(0, 120), "2m ago");
    assert_eq!(format_timestamp(0, 7200), "2h ago");
    assert_eq!(format_timestamp(0, 172800), "2d ago");
    assert_eq!(format_timestamp(500, 100), "0s ago");
    assert_eq!(sync_label(Some(0), 59), "synced 59s ago");
    assert_eq!(sync_label(None, 59), "not synced");
}

#[test]
fn hash_detection() {
    assert!(is_hash("7a1864469b42"));
    assert!(is_hash("  f3cb24d "));
    assert!(!is_hash("f3cb24"));
    assert!(!is_hash("src/main.rs"));
    assert!(!is_hash("Cargo.toml"));
}

#[test]
fn hash_markers_are_dropped() {
    assert_eq!(strip_hash_prefix(" HASH:abc123 "), "abc123");
    assert_eq!(strip_hash_prefix("hash_abc"), "abc");
    assert_eq!(strip_hash_prefix("Hash-abc"), "abc");
    assert_eq!(strip_hash_prefix("hashes"), "hashes");
    assert_eq!(strip_hash_prefix("abc"), "abc");
}

#[test]
fn content_hash_detection() {
    assert!(is_content_hash("abc123"));
    assert!(is_content_hash("HASH:1a12fb93"));
    assert!(!is_content_hash("abc12"));
    assert!(!is_content_hash("src/abc123"));
    assert!(!is_content_hash("abc123.rs"));
    assert!(!is_content_hash(".abc123"));
    assert!(!is_content_hash("xyz123"));
}

#[test]
fn fetch_args_are_partitioned() {
    let args = vec!["src/main.rs".to_string(), "hash:7a1864".to_string(), "lib.rs".to_string(), "f3cb24d".to_string()];
    let (files, hashes) = partition_fetch_args(&args);
    assert_eq!(files, vec!["src/main.rs".to_string(), "lib.rs".to_string()]);
    assert_eq!(hashes, vec!["7a1864".to_string(), "f3cb24d".to_string()]);
}

#[test]
fn size_markers() {
    assert_eq!(loc_icon(2001), "🔴");
    assert_eq!(loc_icon(501), "🟡");
    assert_eq!(loc_icon(500), "🟢");
    assert_eq!(size_label(501), " 🔴 LARGE");
    assert_eq!(size_label(101), " 🟡 MEDIUM");
    assert_eq!(size_label(100), " 🟢 small");
}
