use grab::lex::str_lt;
use grab::listing::{fetched_files, order_repos};

fn ids(v: &[Option<&str>]) -> Vec<Option<String>> {
    v.iter().map(|o| o.map(|s| s.to_string())).collect()
}

#[test]
fn active_repo_comes_first_then_by_id() {
    let order = order_repos(&ids(&[Some("core"), Some("api"), Some("web")]), Some("web"));
    assert_eq!(order, vec![2, 1, 0]);
}

#[test]
fn without_active_repo_ids_are_sorted() {
    let order = order_repos(&ids(&[Some("zeta"), Some("alpha"), Some("mid")]), None);
    assert_eq!(order, vec![1, 2, 0]);
}

#[test]
fn equal_ids_keep_their_order() {
    let order = order_repos(&ids(&[Some("a"), Some("b"), Some("a")]), Some("b"));
    assert_eq!(order, vec![1, 0, 2]);
}

#[test]
fn missing_id_matches_missing_active_repo() {
    let order = order_repos(&ids(&[Some("a"), None]), None);
    assert_eq!(order, vec![1, 0]);
}

#[test]
fn no_repos_no_order() {
    assert!(order_repos(&Vec::new(), Some("x")).is_empty());
}

#[test]
fn string_order_is_by_code_point() {
    assert!(str_lt("a", "b"));
    assert!(str_lt("ab", "abc"));
    assert!(!str_lt("abc", "ab"));
    assert!(!str_lt("same", "same"));
    assert!(str_lt("Z", "a"));
    assert!(str_lt("", "a"));
    assert!(str_lt("z", "é"));
}

#[test]
fn fetched_files_are_distinct_and_sorted() {
    let body = "//--+ file:///src/b.rs\n// Hash: 1234567\nfn b() {}\n\n//--+ file:///src/a.rs\nfn a() {}\n\n//--+ file:///src/b.rs\nfn c() {}";
    assert_eq!(fetched_files(body), vec!["src/a.rs".to_string(), "src/b.rs".to_string()]);
}

#[test]
fn text_without_markers_names_no_files() {
    assert!(fetched_files("fn main() {}\n// file:///x").is_empty());
    assert!(fetched_files("").is_empty());
}
