use grab::strip_generic::{
    collapse_whitespace, strip_c_style_comments, strip_comments, strip_hash_comments,
    strip_sql_comments,
};

#[test]
fn test_strip_toml_comments() {
    let code = "[package]\nname = \"grab\" # my crate\n# version = \"0.1\"";
    let stripped = strip_comments(code, "toml");
    assert!(stripped.contains("name = \"grab\""), "Keep inline values. Got: {}", stripped);
    assert!(!stripped.contains("# my crate"), "Remove inline comments");
    assert!(!stripped.contains("# version"), "Remove full comment lines");
}

#[test]
fn test_strip_sql_comments() {
    let code = "SELECT * -- comment\nFROM users;\n/* block \n comment */";
    let stripped = strip_comments(code, "sql");
    assert!(stripped.contains("SELECT *"), "Keep SQL. Got: {}", stripped);
    assert!(!stripped.contains("-- comment"), "Remove -- comments");
    assert!(!stripped.contains("/*"), "Remove block comments");
}

#[test]
fn test_collapse_whitespace() {
    let code = "line 1\n\n\n\nline 2\n   \nline 3";
    let collapsed = collapse_whitespace(code);
    assert_eq!(
        collapsed, "line 1\n\nline 2\n\nline 3",
        "Should collapse to max 1 blank line. Got: {}",
        collapsed
    );
}

#[test]
fn test_strip_yml_preserves_structure() {
    let code = "services:\n  db:\n    image: postgres # latest\n    # ports:\n    #   - 5432:5432";
    let stripped = strip_comments(code, "yml");
    assert!(stripped.contains("image: postgres"), "Keep values. Got: {}", stripped);
    assert!(!stripped.contains("# latest"), "Remove inline comments");
    assert!(!stripped.contains("# ports"), "Remove commented out code");
}

#[test]
fn hash_inside_quotes_is_kept() {
    assert_eq!(strip_hash_comments("a = \"x#y\" # c"), "a = \"x#y\"");
    assert_eq!(strip_hash_comments("b = 'p#q'"), "b = 'p#q'");
}

#[test]
fn hash_comments_keep_indentation_and_lines() {
    assert_eq!(strip_hash_comments("  k: v # c\n# only\nz"), "  k: v\n\nz");
}

#[test]
fn sql_quotes_protect_dashes() {
    assert_eq!(strip_sql_comments("SELECT '--x' -- y\n\nFROM t"), "SELECT '--x' \nFROM t");
}

#[test]
fn c_style_comments_and_blank_lines_go() {
    assert_eq!(strip_c_style_comments("message M { // c\n\n  /* x */ int32 a = 1;\n}"), "message M { \n   int32 a = 1;\n}");
}

#[test]
fn json_is_not_touched() {
    assert_eq!(strip_comments("{\"a\": \"#b\"} # not a comment", "json"), "{\"a\": \"#b\"} # not a comment");
}

#[test]
fn unknown_extension_strips_hash_comments() {
    assert_eq!(strip_comments("x # y", "ini"), "x");
}

#[test]
fn collapse_trims_line_ends() {
    assert_eq!(collapse_whitespace("a  \n\n\n b \n"), "a\n\n b");
}

#[test]
fn collapsing_twice_changes_nothing() {
    let code = "a  \n\n\n  b\t\n\n\nc";
    let once = collapse_whitespace(code);
    assert_eq!(once, "a\n\n  b\n\nc");
    assert_eq!(collapse_whitespace(&once), once);
}

#[test]
fn proto_quote_is_plain_text() {
    let code = "x = '\\' // gone\ny";
    assert_eq!(strip_comments(code, "proto"), "x = '\\' \ny");
    assert_eq!(strip_c_style_comments(code), "x = '\\' \ny");
    assert_eq!(strip_comments("// a 'b' c\nint32 f = 1;", "proto"), "int32 f = 1;");
}
