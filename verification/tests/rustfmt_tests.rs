use grab::rustfmt::{is_mod_decl, restore_mod_decls, strip_mod_decls};

#[test]
fn test_mod_decl_detection() {
    assert!(is_mod_decl("mod foo;"));
    assert!(is_mod_decl("pub mod bar;"));
    assert!(is_mod_decl("pub(crate) mod baz;"));
    assert!(!is_mod_decl("mod foo { }"));
    assert!(!is_mod_decl("fn foo();"));
}

#[test]
fn test_strip_restore_mod_decls() {
    let code = "mod foo;\npub mod bar;\nfn main() {}";
    let (stripped, ph) = strip_mod_decls(code);
    assert!(!stripped.contains("mod foo;"), "Should strip mod foo;");
    assert!(!stripped.contains("pub mod bar;"), "Should strip pub mod bar;");
    assert!(stripped.contains("fn main() {}"), "Should keep fn main");
    let restored = restore_mod_decls(&stripped, &ph);
    assert_eq!(restored, code, "Should perfectly restore original code");
}

#[test]
fn attribute_before_mod_decl_is_skipped() {
    assert!(is_mod_decl("#[cfg(test)] mod tests;"));
    assert!(!is_mod_decl("#[derive(Debug)] struct S;"));
}

#[test]
fn sentinels_are_numbered_and_padded() {
    let (stripped, ph) = strip_mod_decls("  mod a;\nmod b;");
    assert_eq!(ph.len(), 2);
    assert_eq!(ph[0].1, "  mod a;");
    assert_eq!(ph[1].1, "mod b;");
    assert!(stripped.contains(&ph[0].0));
    assert!(stripped.contains(&ph[1].0));
    assert_eq!(restore_mod_decls(&stripped, &ph), "  mod a;\nmod b;");
}

#[test]
fn code_without_mod_decls_is_unchanged() {
    let (stripped, ph) = strip_mod_decls("fn main() {}\nstruct S;");
    assert!(ph.is_empty());
    assert_eq!(stripped, "fn main() {}\nstruct S;");
}
