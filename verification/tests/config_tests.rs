use grab::config::{file_extension, FileKind, ScanConfig};

#[test]
fn extensions_follow_path_rules() {
    assert_eq!(file_extension("src/main.rs"), Some("rs".to_string()));
    assert_eq!(file_extension("a/b.tar.gz"), Some("gz".to_string()));
    assert_eq!(file_extension(".env"), None);
    assert_eq!(file_extension("Makefile"), None);
    assert_eq!(file_extension("dir/file.toml/"), Some("toml".to_string()));
}

#[test]
fn default_rules() {
    let c = ScanConfig::default();
    assert_eq!(c.rules.len(), 10);
    let r = c.rule_for("x/y.yaml").unwrap();
    assert_eq!(r.kind, FileKind::Structured);
    assert!(r.strip_comments && r.collapse_whitespace);
    assert_eq!(c.rule_for("x.rs").unwrap().kind, FileKind::Rust);
    assert!(c.rule_for("x.py").is_none());
    assert!(c.should_skip_dir("node_modules"));
    assert!(!c.should_skip_dir(".next"));
}
