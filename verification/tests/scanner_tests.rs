use grab::config::{FileKind, ScanConfig};
use grab::scanner::{is_too_large, process_file, ScanResult};

#[test]
fn rust_file_gets_skeleton_and_body() {
    let config = ScanConfig::default();
    let rule = config.rule_for("src/main.rs").unwrap();
    let p = process_file("fn main() { /* comment */ }\n", "src/main.rs", rule);
    assert_eq!(p.extension, "rs");
    assert_eq!(p.kind, FileKind::Rust);
    assert_eq!(p.code, "fn main() {  }");
    assert_eq!(p.loc, 1);
    assert_eq!(p.byte_size, 14);
    assert!(p.skeleton_segment.is_some());
    assert_eq!(p.bodies.len(), 1);
    let (hash, meta, body) = &p.bodies[0];
    assert_eq!(hash.len(), 12);
    assert_eq!(meta.filepath, "src/main.rs");
    assert_eq!(meta.loc, 1);
    assert_eq!(meta.byte_size, body.len());
    assert_eq!(body, "{  }");
}

#[test]
fn rust_file_loses_tests_and_blank_lines() {
    let config = ScanConfig::default();
    let rule = config.rule_for("lib.rs").unwrap();
    let code = "fn a() {}\n\n// note\n#[cfg(test)]\nmod tests {\n    fn t() {}\n}\n";
    let p = process_file(code, "lib.rs", rule);
    assert_eq!(p.code, "fn a() {}");
    assert_eq!(p.bodies.len(), 1);
}

#[test]
fn toml_file_is_stripped_and_has_no_skeleton() {
    let config = ScanConfig::default();
    let rule = config.rule_for("Cargo.toml").unwrap();
    let p = process_file("[package]\nname = \"test\" # my crate\n", "Cargo.toml", rule);
    assert!(p.skeleton_segment.is_none());
    assert!(p.bodies.is_empty());
    assert!(!p.code.contains("# my crate"), "Toml should strip comments. Got: {}", p.code);
    assert_eq!(p.code, "[package]\nname = \"test\"");
    assert_eq!(p.loc, 2);
}

#[test]
fn markdown_is_served_raw() {
    let config = ScanConfig::default();
    let rule = config.rule_for("README.md").unwrap();
    let p = process_file("# Title\n\n\ntext # not a comment", "README.md", rule);
    assert_eq!(p.code, "# Title\n\n\ntext # not a comment");
    assert_eq!(p.loc, 4);
    assert_eq!(p.kind, FileKind::Raw);
}

#[test]
fn unknown_extension_has_no_rule() {
    let config = ScanConfig::default();
    assert!(config.rule_for("Cargo.lock").is_none());
    assert!(config.should_skip_dir("target"));
    assert!(!config.should_skip_dir("src"));
}

#[test]
fn scan_result_counts_by_extension() {
    let config = ScanConfig::default();
    let mut result = ScanResult::new();
    let rs = config.rule_for("a.rs").unwrap();
    let toml = config.rule_for("b.toml").unwrap();
    result.record(process_file("fn a() {}\nfn b() {}", "a.rs", rs));
    result.record(process_file("fn c() {}", "c.rs", rs));
    result.record(process_file("x = 1", "b.toml", toml));
    assert_eq!(result.files.len(), 3);
    assert_eq!(result.total_loc, 4);
    assert_eq!(result.by_type.get("rs"), Some(&2));
    assert_eq!(result.by_type.get("toml"), Some(&1));
    assert_eq!(result.by_type.get("lock"), None);
}

#[test]
fn size_limit() {
    assert!(!is_too_large(5_000_000));
    assert!(is_too_large(5_000_001));
}
