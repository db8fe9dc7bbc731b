use grab::compress::{compress_code, compress_items, stub_mask, Compressor, ItemKind, RustItem, SpanPos};

#[test]
fn test_hash_is_stable() {
    let code = "fn foo() { let x = 1; }";
    let (hashes1, _) = compress_code(code, "src/main.rs");
    let (hashes2, _) = compress_code(code, "src/main.rs");
    assert_eq!(hashes1.len(), 1);
    assert_eq!(hashes1[0].0, hashes2[0].0, "Hash must be stable across runs");
}

#[test]
fn test_different_files_different_hashes() {
    let code = "fn foo() { let x = 1; }";
    let (h1, _) = compress_code(code, "src/main.rs");
    let (h2, _) = compress_code(code, "src/lib.rs");
    assert_ne!(h1[0].0, h2[0].0, "Same body, different file must differ");
}

#[test]
fn test_loc_tracking() {
    let code = r#"fn short() { 1 }

fn long() {
    let a = 1;
    let b = 2;
    let c = 3;
    a + b + c
}"#;
    let (hashes, _) = compress_code(code, "src/main.rs");
    assert_eq!(hashes.len(), 2);
    let short_hash = hashes.iter().find(|h| h.3 == 1).expect("Could not find 1 LOC block");
    let long_hash = hashes.iter().find(|h| h.3 == 6).expect("Could not find 6 LOC block");
    assert!(short_hash.3 < long_hash.3, "Long function must have more LOC");
}

#[test]
fn test_skeleton_format() {
    let code = r#"struct MyStruct;

impl MyStruct {
    fn do_thing(&self) { /* body */ }
}"#;
    let (_, skeleton) = compress_code(code, "src/models.rs");
    assert!(skeleton.contains("[1 LOC] (struct MyStruct)"), "Struct skeleton missing LOC. Got: {}", skeleton);
    assert!(skeleton.contains("[3 LOC]"), "Impl skeleton missing LOC. Got: {}", skeleton);
    assert!(!skeleton.contains("/* body */"), "Fn inside impl should have its body removed. Got: {}", skeleton);
}

#[test]
fn test_parse_failure_fallback() {
    let bad_code = "fn missing_brace() {";
    let (hashes, skeleton) = compress_code(bad_code, "src/bad.rs");
    assert!(hashes.is_empty(), "Bad parse should yield no hashes");
    assert_eq!(skeleton, bad_code, "Bad parse should return raw code as skeleton");
}

#[test]
fn test_body_preserves_formatting() {
    let code = r#"fn formatted() {
    let x = 1;
    let y = 2;
    x + y
}"#;
    let (hashes, _) = compress_code(code, "src/main.rs");
    assert_eq!(hashes.len(), 1);
    let body = &hashes[0].2;
    assert!(body.contains("    let x = 1;"), "Body must preserve formatting. Got: {}", body);
    assert!(body.lines().count() == 5, "Body LOC must be 5. Got: {}", body.lines().count());
}

#[test]
fn fn_skeleton_is_signature_with_stub() {
    let code = "fn add(a: i32) -> i32 {\n    a + 1\n}";
    let (hashes, skeleton) = compress_code(code, "src/m.rs");
    assert_eq!(hashes.len(), 1);
    let h = &hashes[0];
    assert_eq!(h.1, "src/m.rs");
    assert_eq!(h.2, "{\n    a + 1\n}");
    assert_eq!(h.3, 3);
    assert_eq!(skeleton, format!("fn add(a: i32) -> i32 {{ /* HASH:{} [3 LOC] */ }}\n", h.0));
    assert_eq!(h.0, grab::stable_hash::stable_hash_body("{\n    a + 1\n}", "src/m.rs"));
}

#[test]
fn use_items_are_kept_verbatim() {
    let code = "use std::fmt;\nconst N: u8 = 3;";
    let (hashes, skeleton) = compress_code(code, "src/c.rs");
    assert!(hashes.is_empty());
    assert_eq!(skeleton, "use std::fmt;\nconst N: u8 = 3;\n");
}

#[test]
fn enum_and_trait_notes() {
    let code = "enum E { A, B }\ntrait T {\n    fn f(&self);\n}";
    let (hashes, skeleton) = compress_code(code, "src/e.rs");
    assert_eq!(hashes.len(), 2);
    assert_eq!(hashes[0].2, "enum E { A, B }");
    assert_eq!(hashes[1].3, 3);
    assert!(skeleton.contains("[1 LOC] (enum E) */\n"));
    assert!(skeleton.contains("[3 LOC] (trait T) */\n"));
}

#[test]
fn impl_stub_comes_from_the_token_printer() {
    let code = "impl S {\n    fn f(&self) -> u8 { 7 }\n}";
    let (hashes, skeleton) = compress_code(code, "src/s.rs");
    assert_eq!(hashes.len(), 1);
    assert_eq!(hashes[0].2, code);
    assert!(skeleton.starts_with(&format!("/* HASH:{} [3 LOC] */\n", hashes[0].0)));
    assert!(!skeleton.contains("{ 7 }"));
    assert!(skeleton.ends_with("}\n"));
}

fn span(sl: usize, sc: usize, el: usize, ec: usize) -> SpanPos {
    SpanPos { start_line: sl, start_col: sc, end_line: el, end_col: ec }
}

fn other_item(sp: SpanPos, tokens: &str) -> RustItem {
    RustItem {
        kind: ItemKind::Other,
        span: sp,
        block_span: span(0, 0, 0, 0),
        tokens: tokens.to_string(),
        block_tokens: String::new(),
        ident: String::new(),
        stub_tokens: String::new(),
    }
}

#[test]
fn span_text_cuts_across_lines() {
    let code = "abc\ndef\nghi";
    let items = vec![other_item(span(1, 1, 3, 2), "unused")];
    let (hashes, skeleton) = compress_items(code, "x.rs", &items);
    assert!(hashes.is_empty());
    assert_eq!(skeleton, "bc\ndef\ngh\n");
}

#[test]
fn span_outside_source_falls_back_to_tokens() {
    let code = "abc";
    let items = vec![other_item(span(2, 0, 2, 1), "printed tokens"), other_item(span(0, 0, 0, 0), "zero")];
    let (_, skeleton) = compress_items(code, "x.rs", &items);
    assert_eq!(skeleton, "printed tokens\nzero\n");
}

#[test]
fn columns_count_characters() {
    let code = "é = 1";
    let items = vec![other_item(span(1, 1, 1, 3), "t")];
    let (_, skeleton) = compress_items(code, "x.rs", &items);
    assert_eq!(skeleton, " =\n");
}

#[test]
fn body_after_non_ascii_text_is_cut_exactly() {
    let code = "const A: &str = \"é\"; fn f() { 1 }";
    let (hashes, skeleton) = compress_code(code, "src/u.rs");
    assert_eq!(hashes.len(), 1);
    assert_eq!(hashes[0].2, "{ 1 }");
    assert!(skeleton.starts_with("const A: &str = \"é\";\n"));
    assert!(skeleton.contains("fn f() { /* HASH:"));
}

#[test]
fn columns_past_line_end_are_capped() {
    let code = "ab";
    let items = vec![other_item(span(1, 1, 1, 99), "t")];
    let (_, skeleton) = compress_items(code, "x.rs", &items);
    assert_eq!(skeleton, "b\n");
}

#[test]
fn compressor_hashes_with_its_path() {
    let c = Compressor::new("src/p.rs", "fn a() {}");
    assert_eq!(c.hash_body("{}"), grab::stable_hash::stable_hash_body("{}", "src/p.rs"));
    let (recs, skel) = c.finish();
    assert!(recs.is_empty());
    assert_eq!(skel, "");
}

#[test]
fn impl_stub_keeps_members_that_are_not_methods() {
    let code = "impl S {\n    const N: u32 = 3;\n    fn f(&self) -> u32 { 7 }\n}";
    let (hashes, skeleton) = compress_code(code, "src/k.rs");
    assert_eq!(hashes.len(), 1);
    assert!(skeleton.contains("const N : u32 = 3 ;"));
    assert!(skeleton.contains("fn f (& self) -> u32 { }"));
    assert!(!skeleton.contains("{ 7 }"));
}

#[test]
fn stub_mask_marks_exactly_the_methods() {
    assert_eq!(stub_mask(&vec![true, false, true]), vec![true, false, true]);
    assert_eq!(stub_mask(&vec![]), Vec::<bool>::new());
}
