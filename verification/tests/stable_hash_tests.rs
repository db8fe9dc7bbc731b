use grab::stable_hash::{stable_hash_body, stable_hash_file};

#[test]
fn same_input_same_hash() {
    let h1 = stable_hash_body("fn foo() {}", "src/main.rs");
    let h2 = stable_hash_body("fn foo() {}", "src/main.rs");
    assert_eq!(h1, h2, "Same input must produce same hash");
}

#[test]
fn different_filepath_different_hash() {
    let h1 = stable_hash_body("fn foo() {}", "src/main.rs");
    let h2 = stable_hash_body("fn foo() {}", "src/utils.rs");
    assert_ne!(h1, h2, "Same body, different file must produce different hash");
}

#[test]
fn different_body_different_hash() {
    let h1 = stable_hash_body("fn foo() {}", "src/main.rs");
    let h2 = stable_hash_body("fn bar() {}", "src/main.rs");
    assert_ne!(h1, h2, "Different body must produce different hash");
}

#[test]
fn hash_length_is_12() {
    let h = stable_hash_body("test", "test.rs");
    assert_eq!(h.len(), 12, "Body hash must be 12 hex chars");
}

#[test]
fn file_hash_length_is_24() {
    let h = stable_hash_file(b"test content");
    assert_eq!(h.len(), 24, "File hash must be 24 hex chars");
}

#[test]
fn file_hash_deterministic() {
    let h1 = stable_hash_file(b"test content");
    let h2 = stable_hash_file(b"test content");
    assert_eq!(h1, h2, "File hash must be deterministic");
}

#[test]
fn separator_prevents_collision() {
    let h1 = stable_hash_body("c", "ab");
    let h2 = stable_hash_body("bc", "a");
    assert_ne!(h1, h2, "Separator must prevent boundary collision");
}

#[test]
fn hash_stable_across_multiple_calls() {
    let body = r#"
            fn complex_function(x: i32, y: i32) -> i32 {
                let z = x + y;
                if z > 100 {
                    z * 2
                } else {
                    z + 1
                }
            }
        "#;
    let filepath = "core/src/math.rs";
    let mut hashes = Vec::new();
    for _ in 0..100 {
        hashes.push(stable_hash_body(body, filepath));
    }
    let first = &hashes[0];
    assert!(hashes.iter().all(|h| h == first), "Hash must be stable across calls");
}

#[test]
fn file_hash_of_empty_input_is_sha256_prefix() {
    assert_eq!(stable_hash_file(b""), "e3b0c44298fc1c149afbf4c8");
}

#[test]
fn body_hash_is_sha256_of_path_separator_body() {
    // SHA-256 of the bytes "a", 0xFF, "b".
    let h = stable_hash_body("b", "a");
    assert_eq!(h.len(), 12);
    assert!(h.chars().all(|c| c.is_ascii_hexdigit() && !c.is_ascii_uppercase()));
    assert_ne!(h, stable_hash_body("a", "b"));
}
