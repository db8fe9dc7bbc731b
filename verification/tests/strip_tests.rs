use grab::strip::{remove_empty_lines, remove_rust_comments, remove_test_modules};

#[test]
fn test_remove_line_comments() {
    let code = "let x = 1; // comment\n// whole line\nlet y = 2;";
    let stripped = remove_rust_comments(code);
    assert!(stripped.contains("let x = 1;"), "Keep code. Got: {}", stripped);
    assert!(!stripped.contains("// comment"), "Remove inline comment");
    assert!(!stripped.contains("// whole line"), "Remove whole line comment");
    assert!(stripped.contains("let y = 2;"), "Keep code after comment");
}

#[test]
fn test_remove_block_comments() {
    let code = "let x = /* block */ 1;";
    let stripped = remove_rust_comments(code);
    assert_eq!(stripped, "let x =  1;", "Remove block comment. Got: {}", stripped);
}

#[test]
fn test_preserves_strings() {
    let code = r#"let s = "http://example.com"; // real url"#;
    let stripped = remove_rust_comments(code);
    assert!(
        stripped.contains(r#""http://example.com""#),
        "Preserve string contents. Got: {}",
        stripped
    );
    assert!(!stripped.contains("// real url"), "Remove comment after string");
}

#[test]
fn test_remove_test_modules() {
    let code = "fn real() {}\n\n#[cfg(test)]\nmod tests {\n    fn test_thing() {}\n}\nfn other() {}";
    let stripped = remove_test_modules(code);
    assert!(stripped.contains("fn real() {}"), "Keep real code");
    assert!(stripped.contains("fn other() {}"), "Keep code after tests");
    assert!(!stripped.contains("mod tests"), "Remove test module declaration");
    assert!(!stripped.contains("test_thing"), "Remove test module contents");
}

#[test]
fn test_remove_empty_lines() {
    let code = "a\n\n\nb\n   \nc";
    let stripped = remove_empty_lines(code);
    assert_eq!(stripped, "a\nb\nc", "Should remove empty lines. Got: {}", stripped);
}

#[test]
fn block_comment_keeps_its_line_breaks() {
    assert_eq!(remove_rust_comments("a /* x\ny */ b"), "a \n b");
}

#[test]
fn escaped_quote_stays_inside_string() {
    assert_eq!(remove_rust_comments(r#"s = "a\"//b"; // c"#), r#"s = "a\"//b"; "#);
}

#[test]
fn unterminated_block_comment_drops_the_rest() {
    assert_eq!(remove_rust_comments("x /* never closed"), "x ");
}

#[test]
fn test_module_with_brace_on_next_line_is_removed() {
    let code = "fn a() {}\nmod tests\n{\n    fn t() {}\n}\nfn b() {}";
    assert_eq!(remove_test_modules(code), "fn a() {}\nfn b() {}");
}

#[test]
fn plain_module_is_kept() {
    let code = "mod util {\n    fn f() {}\n}";
    assert_eq!(remove_test_modules(code), code);
}

#[test]
fn empty_lines_of_empty_text() {
    assert_eq!(remove_empty_lines(""), "");
    assert_eq!(remove_empty_lines("\n\n  \n"), "");
}

#[test]
fn char_literal_quote_does_not_open_a_string() {
    assert_eq!(remove_rust_comments("let c = '\"'; // x"), "let c = '\"'; ");
    assert_eq!(remove_rust_comments("let c = '\\''; // x"), "let c = '\\''; ");
}

#[test]
fn lifetimes_are_ordinary_code() {
    assert_eq!(remove_rust_comments("fn f<'a>(x: &'a str) {} // y"), "fn f<'a>(x: &'a str) {} ");
}

#[test]
fn bodyless_test_module_keeps_what_follows() {
    assert_eq!(remove_test_modules("#[cfg(test)]\nmod tests;\nfn keep() {\n}"), "fn keep() {\n}");
    assert_eq!(remove_test_modules("mod tests;\nfn keep() {\n}"), "fn keep() {\n}");
}

#[test]
fn comment_removal_keeps_line_count() {
    let code = "a /* x\ny */ b\n// c\nd";
    let out = remove_rust_comments(code);
    assert_eq!(out, "a \n b\n\nd");
    assert_eq!(out.lines().count(), code.lines().count());
    assert_eq!(remove_rust_comments("no comments here\n\"q\""), "no comments here\n\"q\"");
}

#[test]
fn bare_mod_test_declaration_is_kept() {
    assert_eq!(remove_test_modules("mod tests;\nconst A: u8 = 1;"), "mod tests;\nconst A: u8 = 1;");
}
