use grab::paths::same_path;

#[test]
fn paths_compare_by_components() {
    assert!(same_path("/a/b", "/a/b/"));
    assert!(same_path("/a//b", "/a/b"));
    assert!(same_path("/a/./b", "/a/b"));
    assert!(same_path("./a", "./a/"));
    assert!(!same_path("./a", "a"));
    assert!(!same_path("/a/b", "a/b"));
    assert!(!same_path("/a/../b", "/b"));
    assert!(same_path("/", "//"));
}
