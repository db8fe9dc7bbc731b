//! The command-line client's rules: how a typed path or hash is read, and
//! how times and sizes are shown.
use vstd::prelude::*;
use crate::cache::strs;
use crate::strip_generic::str_equals;
use crate::text::{
    append, append_str, chars_of, contains, decimal, decimal_vec, ends_with, has_char,
    slice_vec, starts_with, string_of, trim, trim_vec, vec_contains, vec_ends_with,
    vec_has_char, vec_starts_with,
};

verus! {

// ───────────────────────── paths ─────────────────────────

/// Files that live at the root of a repo, not under `src/`.
pub open spec fn is_root_level_file(name: Seq<char>) -> bool {
    ||| name == "Cargo.toml"@
    ||| name == "Cargo.lock"@
    ||| name == "docker-compose.yml"@
    ||| name == "docker-compose.yaml"@
    ||| name == "Dockerfile"@
    ||| name == ".env"@
    ||| name == ".env.example"@
    ||| name == "Makefile"@
    ||| name == "README.md"@
    ||| name == "build.rs"@
}

/// The text after the last `/` (`path.rsplit('/').next()`).
pub open spec fn last_component(path: Seq<char>) -> Seq<char> {
    path.skip(crate::config::last_index_of(path, '/') + 1)
}

/// Should a typed path get `src/` in front of it?
pub open spec fn spec_should_auto_prefix_src(path: Seq<char>) -> bool {
    if starts_with(path, "src/"@) || contains(path, "/src/"@) {
        false
    } else if is_root_level_file(last_component(path)) {
        false
    } else if has_char(path, '/') {
        true
    } else {
        ends_with(path, ".rs"@)
    }
}

fn is_root_level(name: &Vec<char>) -> (res: bool)
    ensures
        res == is_root_level_file(name@),
{
    let s = string_of(name);
    let n = s.as_str();
    str_equals(n, "Cargo.toml") || str_equals(n, "Cargo.lock") || str_equals(n, "docker-compose.yml")
        || str_equals(n, "docker-compose.yaml") || str_equals(n, "Dockerfile") || str_equals(n, ".env")
        || str_equals(n, ".env.example") || str_equals(n, "Makefile") || str_equals(n, "README.md")
        || str_equals(n, "build.rs")
}

fn last_component_vec(p: &Vec<char>) -> (res: Vec<char>)
    ensures
        res@ == last_component(p@),
{
    let k = crate::config::last_index(p, '/', p.len());
    proof {
        assert(p@.take(p@.len() as int) =~= p@);
        crate::config::lemma_last_index_of(p@, '/');
    }
    let start = match k {
        Some(k) => k + 1,
        None => 0,
    };
    let r = slice_vec(p, start, p.len());
    assert(r@ =~= last_component(p@));
    r
}

/// Should a typed path get `src/` in front of it? Not when it already goes
/// through `src/` or names a root-level file; yes when it has a directory,
/// or is a bare `.rs` file name.
pub fn should_auto_prefix_src(path: &str) -> (res: bool)
    ensures
        res == spec_should_auto_prefix_src(path@),
{
    let p = chars_of(path);
    if crate::text::starts_with_str(&p, "src/") || vec_contains(&p, &chars_of("/src/")) {
        return false;
    }
    let name = last_component_vec(&p);
    if is_root_level(&name) {
        return false;
    }
    if vec_has_char(&p, '/') {
        return true;
    }
    crate::text::ends_with_str(&p, ".rs")
}

/// Does the path start with a repo id (a first component without a dot that
/// is not `src`)?
pub open spec fn spec_has_repo_prefix(path: Seq<char>) -> bool {
    let k = crate::text::index_of(path, '/');
    k < path.len() && !has_char(path.take(k), '.') && path.take(k) != "src"@
}

/// Detects if a path already starts with a repo-id prefix (e.g., "grab/src/main.rs").
pub fn has_repo_prefix(path: &str) -> (res: bool)
    ensures
        res == spec_has_repo_prefix(path@),
{
    let p = chars_of(path);
    let mut k: usize = 0;
    while k < p.len() && p[k] != '/'
        invariant
            k <= p@.len(),
            forall|j: int| 0 <= j < k ==> p@[j] != '/',
        decreases p.len() - k,
    {
        k += 1;
    }
    proof {
        crate::text::lemma_index_of(p@, '/', k as int);
    }
    if k >= p.len() {
        return false;
    }
    let first = slice_vec(&p, 0, k);
    assert(first@ =~= path@.take(k as int));
    !vec_has_char(&first, '.') && !crate::config::str_vec_equals(&first, "src")
}

/// A typed path without its leading `/`, with `src/` added where it belongs.
pub open spec fn with_src(input: Seq<char>) -> Seq<char> {
    let clean = if starts_with(input, seq!['/']) { input.drop_first() } else { input };
    if spec_should_auto_prefix_src(clean) { "src/"@ + clean } else { clean }
}

/// The path a typed path resolves to, given the active repo.
pub open spec fn spec_resolve_path(input: Seq<char>, active: Option<Seq<char>>) -> Seq<char> {
    let with_src = with_src(input);
    match active {
        Some(repo) => if starts_with(with_src, repo.push('/')) || spec_has_repo_prefix(with_src) {
            with_src
        } else {
            repo.push('/') + with_src
        },
        None => with_src,
    }
}

/// Resolve a typed path: drop a leading `/`, add `src/` where
/// `should_auto_prefix_src` says so, and put the active repo in front unless
/// the path already names a repo.
pub fn resolve_path(input: &str, active_repo: Option<&str>) -> (res: String)
    ensures
        res@ == spec_resolve_path(
            input@,
            match active_repo {
                Some(r) => Some(r@),
                None => None,
            },
        ),
{
    let iv = chars_of(input);
    let slash = vec!['/'];
    assert(slash@ =~= seq!['/']);
    let clean = if vec_starts_with(&iv, &slash) {
        slice_vec(&iv, 1, iv.len())
    } else {
        slice_vec(&iv, 0, iv.len())
    };
    assert(iv@.subrange(1, iv@.len() as int) =~= iv@.drop_first());
    assert(iv@.subrange(0, iv@.len() as int) =~= iv@);
    let clean_s = string_of(&clean);
    let with_src = if should_auto_prefix_src(clean_s.as_str()) {
        let mut v = chars_of("src/");
        append(&mut v, &clean);
        v
    } else {
        clean
    };
    match active_repo {
        Some(repo) => {
            let mut prefix = chars_of(repo);
            prefix.push('/');
            let ws = string_of(&with_src);
            if vec_starts_with(&with_src, &prefix) || has_repo_prefix(ws.as_str()) {
                ws
            } else {
                append(&mut prefix, &with_src);
                string_of(&prefix)
            }
        },
        None => string_of(&with_src),
    }
}

/// The path shown to the user: without the active repo's prefix.
pub open spec fn spec_display_path(resolved: Seq<char>, active: Option<Seq<char>>) -> Seq<char> {
    match active {
        Some(r) => if starts_with(resolved, r.push('/')) {
            resolved.skip(r.len() + 1int)
        } else {
            resolved
        },
        None => resolved,
    }
}

/// Returns the display path (without repo prefix) for user-facing messages.
pub fn display_path(resolved: &str, active_repo: Option<&str>) -> (res: String)
    ensures
        res@ == spec_display_path(
            resolved@,
            match active_repo {
                Some(r) => Some(r@),
                None => None,
            },
        ),
{
    let rv = chars_of(resolved);
    match active_repo {
        Some(r) => {
            let mut prefix = chars_of(r);
            prefix.push('/');
            if vec_starts_with(&rv, &prefix) {
                let rest = slice_vec(&rv, prefix.len(), rv.len());
                assert(rest@ =~= resolved@.skip(r@.len() + 1int));
                string_of(&rest)
            } else {
                string_of(&rv)
            }
        },
        None => string_of(&rv),
    }
}

/// The daemon's address.
pub fn base_url(host: &str, port: u16) -> (res: String)
    ensures
        res@ == "http://"@ + host@ + seq![':'] + decimal(port as nat),
{
    let mut v = chars_of("http://");
    append_str(&mut v, host);
    v.push(':');
    append(&mut v, &decimal_vec(port as u128));
    string_of(&v)
}

// ───────────────────────── times and sizes ─────────────────────────

/// How long ago a time was, in the largest whole unit.
pub open spec fn spec_format_timestamp(ts: u64, now: u64) -> Seq<char> {
    let diff: nat = if now >= ts { (now - ts) as nat } else { 0 };
    if diff < 60 {
        decimal(diff) + "s ago"@
    } else if diff < 3600 {
        decimal(diff / 60) + "m ago"@
    } else if diff < 86400 {
        decimal(diff / 3600) + "h ago"@
    } else {
        decimal(diff / 86400) + "d ago"@
    }
}

/// How long before `now` (both in epoch seconds) the time `ts` was.
pub fn format_timestamp(ts: u64, now: u64) -> (res: String)
    ensures
        res@ == spec_format_timestamp(ts, now),
{
    let diff = now.saturating_sub(ts);
    let (n, unit) = if diff < 60 {
        (diff, "s ago")
    } else if diff < 3600 {
        (diff / 60, "m ago")
    } else if diff < 86400 {
        (diff / 3600, "h ago")
    } else {
        (diff / 86400, "d ago")
    };
    let mut v = decimal_vec(n as u128);
    append_str(&mut v, unit);
    string_of(&v)
}

/// When a repo was last synced.
pub fn sync_label(last_sync: Option<u64>, now: u64) -> (res: String)
    ensures
        res@ == match last_sync {
            Some(ts) => "synced "@ + spec_format_timestamp(ts, now),
            None => "not synced"@,
        },
{
    match last_sync {
        Some(ts) => {
            let mut v = chars_of("synced ");
            append_str(&mut v, format_timestamp(ts, now).as_str());
            string_of(&v)
        },
        None => string_of(&chars_of("not synced")),
    }
}

/// The marker shown for a file of this size.
pub fn loc_icon(loc: u64) -> (res: &'static str)
    ensures
        res@ == if loc > 2000 { "🔴"@ } else if loc > 500 { "🟡"@ } else { "🟢"@ },
{
    if loc > 2000 {
        "🔴"
    } else if loc > 500 {
        "🟡"
    } else {
        "🟢"
    }
}

/// The label shown for a body of this size.
pub fn size_label(loc: u64) -> (res: &'static str)
    ensures
        res@ == if loc > 500 { " 🔴 LARGE"@ } else if loc > 100 { " 🟡 MEDIUM"@ } else { " 🟢 small"@ },
{
    if loc > 500 {
        " 🔴 LARGE"
    } else if loc > 100 {
        " 🟡 MEDIUM"
    } else {
        " 🟢 small"
    }
}

// ───────────────────────── hashes ─────────────────────────

/// An ASCII hex digit.
pub open spec fn is_hex(c: char) -> bool {
    ('0' <= c && c <= '9') || ('a' <= c && c <= 'f') || ('A' <= c && c <= 'F')
}

pub open spec fn all_hex(s: Seq<char>) -> bool {
    forall|i: int| 0 <= i < s.len() ==> is_hex(#[trigger] s[i])
}

fn vec_all_hex(s: &Vec<char>) -> (res: bool)
    ensures
        res == all_hex(s@),
{
    let mut i: usize = 0;
    while i < s.len()
        invariant
            i <= s@.len(),
            forall|j: int| 0 <= j < i ==> is_hex(#[trigger] s@[j]),
        decreases s.len() - i,
    {
        let c = s[i];
        if !(('0' <= c && c <= '9') || ('a' <= c && c <= 'f') || ('A' <= c && c <= 'F')) {
            return false;
        }
        i += 1;
    }
    true
}

/// A token is taken for a hash prefix when, trimmed, it is at least 7
/// characters of ASCII hex digits.
pub fn is_hash(s: &str) -> (res: bool)
    ensures
        res == (trim(s@).len() >= 7 && all_hex(trim(s@))),
{
    let t = trim_vec(&chars_of(s));
    if t.len() < 7 {
        return false;
    }
    vec_all_hex(&t)
}

/// Is `l` the ASCII lower case of `c`?
pub open spec fn lower_eq(c: char, l: char) -> bool {
    if 'A' <= c && c <= 'Z' {
        (c as u32) + 32 == (l as u32)
    } else {
        c == l
    }
}

/// Does the text begin with `hash` in any case, followed by `:`, `_` or `-`?
pub open spec fn has_hash_marker(t: Seq<char>) -> bool {
    &&& t.len() >= 5
    &&& lower_eq(t[0], 'h')
    &&& lower_eq(t[1], 'a')
    &&& lower_eq(t[2], 's')
    &&& lower_eq(t[3], 'h')
    &&& (t[4] == ':' || t[4] == '_' || t[4] == '-')
}

/// The hash without its `hash:` / `hash_` / `hash-` marker, trimmed.
pub open spec fn spec_strip_hash_prefix(s: Seq<char>) -> Seq<char> {
    let t = trim(s);
    if has_hash_marker(t) {
        t.skip(5)
    } else {
        t
    }
}

fn lower_is(c: char, l: char) -> (res: bool)
    ensures
        res == lower_eq(c, l),
{
    if 'A' <= c && c <= 'Z' {
        (c as u32) + 32 == (l as u32)
    } else {
        c == l
    }
}

/// Drop a `hash:`, `hash_` or `hash-` marker (in any case) from a trimmed
/// hash.
pub fn strip_hash_prefix(hash: &str) -> (res: String)
    ensures
        res@ == spec_strip_hash_prefix(hash@),
{
    let t = trim_vec(&chars_of(hash));
    if t.len() >= 5 && lower_is(t[0], 'h') && lower_is(t[1], 'a') && lower_is(t[2], 's') && lower_is(t[3], 'h')
        && (t[4] == ':' || t[4] == '_' || t[4] == '-') {
        let rest = slice_vec(&t, 5, t.len());
        assert(rest@ =~= trim(hash@).skip(5));
        string_of(&rest)
    } else {
        string_of(&t)
    }
}

/// Is an argument a content hash rather than a path? Not when it looks like
/// a path or has an extension; otherwise when, without its marker, it is 6
/// to 64 ASCII hex digits.
pub open spec fn spec_is_content_hash(arg: Seq<char>) -> bool {
    let stripped = spec_strip_hash_prefix(arg);
    if has_char(arg, '/') || has_char(arg, '\\') || starts_with(arg, seq!['.']) {
        false
    } else if has_char(arg, '.') {
        false
    } else {
        6 <= stripped.len() <= 64 && all_hex(stripped)
    }
}

/// Detect if an argument is a content hash (vs a file path).
pub fn is_content_hash(arg: &str) -> (res: bool)
    ensures
        res == spec_is_content_hash(arg@),
{
    let stripped = chars_of(strip_hash_prefix(arg).as_str());
    let a = chars_of(arg);
    let dot = vec!['.'];
    assert(dot@ =~= seq!['.']);
    if vec_has_char(&a, '/') || vec_has_char(&a, '\\') || vec_starts_with(&a, &dot) {
        return false;
    }
    if vec_has_char(&a, '.') {
        return false;
    }
    stripped.len() >= 6 && stripped.len() <= 64 && vec_all_hex(&stripped)
}

/// The arguments of `fetch`, split into paths and (marker-free) hashes.
pub open spec fn spec_partition_args(args: Seq<Seq<char>>) -> (Seq<Seq<char>>, Seq<Seq<char>>)
    decreases args.len(),
{
    if args.len() == 0 {
        (seq![], seq![])
    } else {
        let prev = spec_partition_args(args.drop_last());
        let a = args.last();
        let stripped = spec_strip_hash_prefix(a);
        if spec_is_content_hash(stripped) {
            (prev.0, prev.1.push(stripped))
        } else {
            (prev.0.push(a), prev.1)
        }
    }
}

/// Split `fetch` arguments into file paths and hashes, in order.
pub fn partition_fetch_args(args: &Vec<String>) -> (res: (Vec<String>, Vec<String>))
    ensures
        (strs(res.0@), strs(res.1@)) == spec_partition_args(strs(args@)),
{
    let ghost av = strs(args@);
    let mut files: Vec<String> = Vec::new();
    let mut hashes: Vec<String> = Vec::new();
    let mut i: usize = 0;
    while i < args.len()
        invariant
            i <= args@.len(),
            av == strs(args@),
            (strs(files@), strs(hashes@)) == spec_partition_args(av.take(i as int)),
        decreases args.len() - i,
    {
        proof {
            assert(av.take(i + 1).drop_last() =~= av.take(i as int));
            assert(av.take(i + 1).last() == args@[i as int]@);
        }
        let stripped = strip_hash_prefix(args[i].as_str());
        if is_content_hash(stripped.as_str()) {
            let ghost before = strs(hashes@);
            hashes.push(stripped);
            assert(strs(hashes@) =~= before.push(spec_strip_hash_prefix(args@[i as int]@)));
        } else {
            let ghost before = strs(files@);
            files.push(args[i].clone());
            assert(strs(files@) =~= before.push(args@[i as int]@));
        }
        i += 1;
    }
    assert(av.take(args@.len() as int) =~= av);
    (files, hashes)
}

/// Showing a resolved path hides exactly the repo prefix that resolving
/// added: the user sees the path as typed, with `src/` where it belongs.
pub proof fn lemma_display_undoes_resolve(input: Seq<char>, repo: Seq<char>)
    ensures
        !starts_with(with_src(input), repo.push('/')) && !spec_has_repo_prefix(with_src(input))
            ==> spec_display_path(spec_resolve_path(input, Some(repo)), Some(repo)) == with_src(input),
        spec_display_path(spec_resolve_path(input, None), None) == with_src(input),
{
    let w = with_src(input);
    let pre = repo.push('/');
    if !starts_with(w, pre) && !spec_has_repo_prefix(w) {
        let r = pre + w;
        assert(r.take(pre.len() as int) =~= pre);
        assert(r.skip(repo.len() + 1int) =~= w);
    }
}

} // verus!
