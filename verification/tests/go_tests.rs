use grab::compress_go::{compress_go_code, find_go_func_body, find_matching_brace, strip_go_comments};

#[test]
fn go_comments_are_stripped_outside_strings() {
    assert_eq!(strip_go_comments("a // c\nb /* x */ c \"//s\""), "a \nb  c \"//s\"");
    assert_eq!(strip_go_comments("r := '/' // x"), "r := '/' ");
}

#[test]
fn go_function_bodies_become_stubs() {
    let src = "package main\n\nfunc main() {\n\tx := 1\n}\n";
    let (hashes, skeleton) = compress_go_code(src, "main.go");
    assert_eq!(hashes.len(), 1);
    assert_eq!(hashes[0].1, "main.go");
    assert_eq!(hashes[0].2, "{\n\tx := 1\n}");
    assert_eq!(hashes[0].3, 3);
    assert_eq!(skeleton, format!("package main\n\nfunc main() {{ /* HASH:{} [3 LOC] */ }}\n", hashes[0].0));
}

#[test]
fn nested_functions_are_left_alone() {
    let src = "type T struct {\nfunc bad() {}\n}\n";
    let (hashes, skeleton) = compress_go_code(src, "t.go");
    assert!(hashes.is_empty());
    assert_eq!(skeleton, src);
}

#[test]
fn matching_brace_skips_strings() {
    let src = "{ \"}\" }";
    assert!(find_matching_brace(src, 0).is_some());
}

#[test]
fn interface_result_type_is_not_the_body() {
    let src = "func f() interface{} {\n\treturn nil\n}";
    let (hashes, skeleton) = compress_go_code(src, "a.go");
    assert_eq!(hashes.len(), 1);
    assert_eq!(hashes[0].2, "{\n\treturn nil\n}");
    assert_eq!(hashes[0].3, 3);
    assert_eq!(skeleton, format!("func f() interface{{}} {{ /* HASH:{} [3 LOC] */ }}", hashes[0].0));
}

#[test]
fn struct_result_type_is_skipped_too() {
    let src = "func g() struct{ a int } {\n\treturn x\n}\n";
    let (hashes, _) = compress_go_code(src, "a.go");
    assert_eq!(hashes[0].2, "{\n\treturn x\n}");
}

#[test]
fn non_ascii_text_comes_back_unchanged() {
    assert_eq!(strip_go_comments("s := \"é\" // c\nt := é"), "s := \"é\" \nt := é");
    let src = "// é\nfunc h() {\n\tx := \"ü\"\n}\n";
    let (hashes, skeleton) = compress_go_code(src, "u.go");
    assert_eq!(hashes[0].2, "{\n\tx := \"ü\"\n}");
    assert!(skeleton.starts_with("// é\nfunc h() {"));
}

#[test]
fn functions_after_a_block_comment_are_extracted() {
    let src = "/* doc */\nfunc a() {\n\treturn\n}\n";
    let (hashes, skeleton) = compress_go_code(src, "b.go");
    assert_eq!(hashes.len(), 1);
    assert!(skeleton.starts_with("/* doc */\nfunc a() { /* HASH:"));
}

#[test]
fn matching_brace_past_the_end_is_none() {
    assert!(find_matching_brace("{}", 5).is_none());
}

#[test]
fn go_records_are_hashed_with_their_path() {
    let src = "func a() {\n\treturn\n}\nfunc b() { x() }\n";
    let (hashes, skeleton) = compress_go_code(src, "p.go");
    assert_eq!(hashes.len(), 2);
    for (h, p, body, loc) in &hashes {
        assert_eq!(p, "p.go");
        assert_eq!(h, &grab::stable_hash::stable_hash_body(body, "p.go"));
        assert_eq!(*loc, body.lines().count());
        assert!(body.starts_with('{') && body.ends_with('}') && src.contains(body.as_str()));
        assert!(skeleton.contains(&format!("/* HASH:{} [{} LOC] */", h, loc)));
    }
}

#[test]
fn escape_at_the_very_end_is_not_a_match() {
    assert_eq!(find_matching_brace("{\"\\", 0), None);
    assert_eq!(find_matching_brace("{'\\", 0), None);
    assert_eq!(find_go_func_body("func f() \"\\", 4), None);
    let (hashes, skel) = compress_go_code("func f() { x := \"\\", "a.go");
    assert!(hashes.is_empty());
    assert_eq!(skel, "func f() { x := \"\\");
}
