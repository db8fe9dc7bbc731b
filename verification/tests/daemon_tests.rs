use grab::cache::{BodyEntry, BodyMeta, DaemonCache, FileEntry};
use grab::daemon::{
    content_type_for, disk_file_info, disk_file_reply, is_log_view, push_log, repo_summaries,
    split_hash_list, RequestLog, SkeletonQuery,
};
use grab::registry::RepoRegistry;

fn body(path: &str, loc: usize, text: &str) -> BodyEntry {
    BodyEntry { meta: BodyMeta { filepath: path.to_string(), loc, byte_size: text.len() }, body: text.to_string() }
}

fn sample() -> DaemonCache {
    let mut c = DaemonCache::default();
    c.bodies.insert("abc111".to_string(), body("r/a.rs", 3, "{ a }"));
    c.bodies.insert("abc222".to_string(), body("r/a.rs", 9, "{ b }"));
    c.bodies.insert("def333".to_string(), body("q/b.rs", 1, "{ c }"));
    c.files.insert(
        "r/a.rs".to_string(),
        FileEntry {
            loc: 20,
            byte_size: 200,
            body_hashes: vec!["abc111".to_string(), "abc222".to_string(), "gone".to_string()],
            code: "fn a() {}".to_string(),
        },
    );
    c.files.insert(
        "q/b.rs".to_string(),
        FileEntry { loc: 30, byte_size: 300, body_hashes: vec!["def333".to_string()], code: "fn b() {}".to_string() },
    );
    c
}

fn ids() -> Vec<String> {
    vec!["r".to_string(), "q".to_string()]
}

fn header<'a>(r: &'a grab::daemon::Reply, name: &str) -> Option<&'a str> {
    r.headers.iter().find(|(k, _)| k == name).map(|(_, v)| v.as_str())
}

#[test]
fn hash_lists_split_on_plus_and_comma() {
    assert_eq!(split_hash_list(" a1 + b2,,c3 "), vec!["a1".to_string(), "b2".to_string(), "c3".to_string()]);
    assert!(split_hash_list(" , + ").is_empty());
}

#[test]
fn exact_hash_returns_plain_block() {
    let r = sample().body_reply("abc111", &ids());
    assert_eq!(r.status, 200);
    assert_eq!(r.body, "//--+ file:///a.rs\n{ a }");
    assert_eq!(header(&r, "x-hash"), Some("abc111"));
    assert_eq!(header(&r, "x-loc"), Some("3"));
    assert_eq!(header(&r, "x-filepath"), Some("a.rs"));
}

#[test]
fn unique_prefix_returns_hashed_block() {
    let r = sample().body_reply("def", &ids());
    assert_eq!(r.status, 200);
    assert_eq!(r.body, "//--+ file:///b.rs\n// Hash: def333\n{ c }");
    assert_eq!(header(&r, "x-hash"), Some("def333"));
}

#[test]
fn ambiguous_prefix_is_a_conflict() {
    let r = sample().body_reply("abc", &ids());
    assert_eq!(r.status, 409);
    assert_eq!(r.body, "Ambiguous prefix 'abc' matches 2 hashes:\n  abc111 3 LOC (a.rs)\n  abc222 9 LOC (a.rs)");
}

#[test]
fn missing_hash_is_not_found() {
    let r = sample().body_reply("zzz", &ids());
    assert_eq!(r.status, 404);
    assert_eq!(r.body, "No hash found matching prefix 'zzz'");
}

#[test]
fn empty_list_is_a_bad_request() {
    let r = sample().body_reply(" + ", &ids());
    assert_eq!(r.status, 400);
    assert_eq!(r.body, "No hashes provided");
}

#[test]
fn several_hashes_are_joined() {
    let r = sample().body_reply("abc111+def", &ids());
    assert_eq!(r.status, 200);
    assert_eq!(r.body, "//--+ file:///a.rs\n// Hash: abc111\n{ a }\n\n//--+ file:///b.rs\n// Hash: def333\n{ c }");
    assert_eq!(header(&r, "x-loc"), Some("4"));
}

#[test]
fn several_hashes_report_missing_and_ambiguous() {
    let r = sample().body_reply("abc,zzz,def333", &ids());
    assert_eq!(r.status, 404);
    assert_eq!(r.body, "Hashes not found: abc (ambiguous), zzz");
}

#[test]
fn several_hashes_with_only_an_ambiguous_prefix_conflict() {
    let r = sample().body_reply("abc+def333", &ids());
    assert_eq!(r.status, 409);
    assert_eq!(r.body, "Hashes not found: abc (ambiguous)");
}

#[test]
fn several_unknown_hashes_are_not_found() {
    let r = DaemonCache::default().body_reply("a+b", &ids());
    assert_eq!(r.status, 404);
    assert_eq!(r.body, "Hashes not found: a, b");
}

#[test]
fn body_infos_resolve_each_hash() {
    let infos = sample().body_infos("abc222,def", &ids()).unwrap();
    assert_eq!(infos.len(), 2);
    assert_eq!(infos[0].hash, "abc222");
    assert_eq!(infos[0].filepath, "a.rs");
    assert_eq!(infos[0].loc, 9);
    assert_eq!(infos[1].hash, "def333");
}

#[test]
fn body_infos_stop_at_first_error() {
    let err = sample().body_infos("def,abc,zzz", &ids()).err().unwrap();
    assert_eq!(err.status, 409);
    assert_eq!(err.body, "Ambiguous prefix 'abc' matches 2 hashes:\n  abc111  3 LOC  (a.rs)\n  abc222  9 LOC  (a.rs)");
    let err = sample().body_infos("zzz", &ids()).err().unwrap();
    assert_eq!(err.status, 404);
    assert_eq!(err.body, "No hash found matching 'zzz'");
}

#[test]
fn rust_file_found_with_or_without_repo() {
    let c = sample();
    let r = c.rust_file_reply("a.rs", &ids());
    assert_eq!(r.status, 200);
    assert_eq!(r.body, "//--+ file:///a.rs\nfn a() {}");
    assert_eq!(header(&r, "x-source"), Some("cache"));
    assert_eq!(header(&r, "x-loc"), Some("20"));
    let r = c.rust_file_reply("q/b.rs", &ids());
    assert_eq!(r.body, "//--+ file:///b.rs\nfn b() {}");
    let r = c.rust_file_reply("nope.rs", &ids());
    assert_eq!(r.status, 404);
    assert_eq!(r.body, "Rust file not indexed yet. Run sync first.");
}

#[test]
fn rust_file_info_lists_known_bodies() {
    let c = sample();
    let info = c.rust_file_info("r/a.rs", &ids()).ok().unwrap();
    assert_eq!(info.filepath, "a.rs");
    assert_eq!(info.loc, 20);
    assert_eq!(info.body_hashes.len(), 2);
    assert_eq!(info.source, "cache");
    let err = c.rust_file_info("r/none.rs", &ids()).err().unwrap();
    assert_eq!(err.status, 404);
    assert_eq!(err.body, "Rust file none.rs not in cache");
}

#[test]
fn disk_files_get_their_content_type() {
    assert_eq!(content_type_for("r/config.json"), "application/json");
    assert_eq!(content_type_for("docker-compose.yml"), "text/yaml");
    assert_eq!(content_type_for("README.md"), "text/markdown");
    assert_eq!(content_type_for("Makefile"), "text/plain");
    let r = disk_file_reply("r/README.md", &ids(), "# hi\nthere");
    assert_eq!(r.status, 200);
    assert_eq!(r.body, "//--+ file:///README.md\n# hi\nthere");
    assert_eq!(header(&r, "content-type"), Some("text/markdown"));
    assert_eq!(header(&r, "x-loc"), Some("2"));
    assert_eq!(header(&r, "x-source"), Some("disk"));
    let info = disk_file_info("q/Cargo.toml", &ids(), "a = 1\n");
    assert_eq!(info.filepath, "Cargo.toml");
    assert_eq!(info.loc, 1);
    assert_eq!(info.byte_size, 6);
    assert_eq!(info.source, "disk");
}

#[test]
fn catalog_sorts_files_and_bodies_by_size() {
    let cat = sample().catalog(&ids()).unwrap();
    assert_eq!(cat.total_loc, 50);
    assert_eq!(cat.total_bodies, 4);
    assert_eq!(cat.files[0].filepath, "b.rs");
    assert_eq!(cat.files[1].filepath, "a.rs");
    assert_eq!(cat.files[1].num_bodies, 3);
    assert_eq!(cat.files[1].top_hashes.len(), 2);
    assert_eq!(cat.files[1].top_hashes[0].hash, "abc222");
    assert_eq!(cat.files[1].top_hashes[1].hash, "abc111");
    assert_eq!(cat.files[0].file_type, "rust");
}

#[test]
fn catalog_keeps_only_five_largest_bodies() {
    let mut c = DaemonCache::default();
    let mut hashes = Vec::new();
    for i in 0..7 {
        let h = format!("h{}", i);
        c.bodies.insert(h.clone(), body("f.rs", i, "{}"));
        hashes.push(h);
    }
    c.files.insert("f.rs".to_string(), FileEntry { loc: 1, byte_size: 1, body_hashes: hashes, code: String::new() });
    let cat = c.catalog(&[]).unwrap();
    let locs: Vec<usize> = cat.files[0].top_hashes.iter().map(|b| b.loc).collect();
    assert_eq!(locs, vec![6, 5, 4, 3, 2]);
}

#[test]
fn skeleton_reply_counts_lines() {
    let c = DaemonCache::default();
    let r = c.skeleton_reply(7890, &SkeletonQuery { repo: None }, &[]);
    assert_eq!(r.status, 200);
    assert_eq!(header(&r, "x-repo"), Some("all"));
    assert_eq!(header(&r, "x-loc"), Some(r.body.lines().count().to_string().as_str()));
    let r = c.skeleton_reply(7890, &SkeletonQuery { repo: Some("core".to_string()) }, &[]);
    assert_eq!(header(&r, "x-repo"), Some("core"));
}

fn log(path: &str) -> RequestLog {
    RequestLog {
        method: "GET".to_string(),
        path: path.to_string(),
        status: 200,
        timestamp: "0".to_string(),
        duration_ms: 1,
        user_agent: "t".to_string(),
    }
}

#[test]
fn log_keeps_newest_two_hundred() {
    let mut logs = Vec::new();
    for i in 0..205 {
        push_log(&mut logs, log(&format!("/{}", i)));
    }
    assert_eq!(logs.len(), 200);
    assert_eq!(logs[0].path, "/5");
    assert_eq!(logs[199].path, "/204");
}

#[test]
fn log_views_are_not_logged() {
    assert!(is_log_view("/logs"));
    assert!(is_log_view("/"));
    assert!(is_log_view("/dashboard"));
    assert!(!is_log_view("/skeleton"));
}

#[test]
fn repos_are_summarized_in_order() {
    let mut reg = RepoRegistry::new("/c".to_string());
    reg.add_repo("b", "/b".to_string());
    reg.add_repo("a", "/a".to_string());
    reg.record_sync("a", 5, 2, Some("main".to_string()));
    let s = repo_summaries(&reg);
    assert_eq!(s.len(), 2);
    assert_eq!(s[0].id, "b");
    assert_eq!(s[1].git_branch.as_deref(), Some("main"));
    assert_eq!(s[1].file_count, Some(2));
}
