//! The decisions of mirroring a repo into the central directory: which
//! files are mirrored, which are copied again, which are removed, and what
//! the sync reports as changed.
use vstd::prelude::*;
use crate::cache::strs;
use crate::reindex::vec_contains_str;
use crate::strip_generic::str_equals;
use crate::text::{append_str, chars_of, lines, slice_vec, split_lines, starts_with, string_of, vec_starts_with};

verus! {

/// Directories that are never mirrored.
pub open spec fn spec_skip_dir(name: Seq<char>) -> bool {
    ||| name == ".git"@
    ||| name == "target"@
    ||| name == "node_modules"@
    ||| name == ".next"@
    ||| name == "dist"@
    ||| name == "build"@
    ||| name == "__pycache__"@
    ||| name == ".idea"@
    ||| name == ".vscode"@
    ||| name == ".DS_Store"@
}

/// Extensions that are never mirrored.
pub open spec fn spec_skip_extension(ext: Seq<char>) -> bool {
    ||| ext == "lock"@
    ||| ext == "pyc"@
    ||| ext == "o"@
    ||| ext == "so"@
    ||| ext == "dylib"@
    ||| ext == "dll"@
    ||| ext == "exe"@
    ||| ext == "pdb"@
    ||| ext == "class"@
    ||| ext == "jar"@
    ||| ext == "wasm"@
}

/// Hidden files are not mirrored, except `.env` and `.env.example`.
pub open spec fn spec_skip_hidden(name: Seq<char>) -> bool {
    starts_with(name, seq!['.']) && name != ".env"@ && name != ".env.example"@
}

/// Files larger than this many bytes are not mirrored.
pub const MAX_SYNC_BYTES: u64 = 5_000_000;

/// Is a directory with this name left out of the mirror?
pub fn skip_dir(name: &str) -> (res: bool)
    ensures
        res == spec_skip_dir(name@),
{
    str_equals(name, ".git") || str_equals(name, "target") || str_equals(name, "node_modules")
        || str_equals(name, ".next") || str_equals(name, "dist") || str_equals(name, "build")
        || str_equals(name, "__pycache__") || str_equals(name, ".idea") || str_equals(name, ".vscode")
        || str_equals(name, ".DS_Store")
}

/// Is a file with this extension left out of the mirror?
pub fn skip_extension(ext: &str) -> (res: bool)
    ensures
        res == spec_skip_extension(ext@),
{
    str_equals(ext, "lock") || str_equals(ext, "pyc") || str_equals(ext, "o") || str_equals(ext, "so")
        || str_equals(ext, "dylib") || str_equals(ext, "dll") || str_equals(ext, "exe")
        || str_equals(ext, "pdb") || str_equals(ext, "class") || str_equals(ext, "jar")
        || str_equals(ext, "wasm")
}

/// Is a file left out of the mirror? Decided by its extension and name
/// (where they are valid UTF-8) and its size (where it could be read).
pub fn skip_source_file(extension: Option<&str>, file_name: Option<&str>, size: Option<u64>) -> (res: bool)
    ensures
        res == ((match extension {
            Some(e) => spec_skip_extension(e@),
            None => false,
        }) || (match file_name {
            Some(n) => spec_skip_hidden(n@),
            None => false,
        }) || (match size {
            Some(s) => s > MAX_SYNC_BYTES,
            None => false,
        })),
{
    let by_ext = match extension {
        Some(e) => skip_extension(e),
        None => false,
    };
    if by_ext {
        return true;
    }
    let hidden = match file_name {
        Some(n) => {
            let nv = chars_of(n);
            let dot = vec!['.'];
            assert(dot@ =~= seq!['.']);
            vec_starts_with(&nv, &dot) && !str_equals(n, ".env") && !str_equals(n, ".env.example")
        },
        None => false,
    };
    if hidden {
        return true;
    }
    match size {
        Some(s) => s > MAX_SYNC_BYTES,
        None => false,
    }
}

/// Compare two files — size first, then modification time; when a time is
/// unknown they are taken to differ.
pub fn files_differ(size_a: u64, size_b: u64, mtime_a: Option<u128>, mtime_b: Option<u128>) -> (res: bool)
    ensures
        res == (size_a != size_b || match (mtime_a, mtime_b) {
            (Some(a), Some(b)) => a > b,
            _ => true,
        }),
{
    if size_a != size_b {
        return true;
    }
    match (mtime_a, mtime_b) {
        (Some(a), Some(b)) => a > b,
        _ => true,
    }
}

/// What the sync does with one source file.
#[derive(PartialEq, Eq, Structural, Clone, Copy, Debug)]
pub enum SyncAction {
    /// The mirror copy is current.
    Keep,
    /// The file is new to the mirror.
    Copy,
    /// The mirror copy is replaced.
    Update,
}

/// A file missing from the mirror is copied; one that is there is copied
/// again only where it differs.
pub fn sync_action(existed_before: bool, differs: bool) -> (res: SyncAction)
    ensures
        res == if !existed_before {
            SyncAction::Copy
        } else if differs {
            SyncAction::Update
        } else {
            SyncAction::Keep
        },
{
    if !existed_before {
        SyncAction::Copy
    } else if differs {
        SyncAction::Update
    } else {
        SyncAction::Keep
    }
}

/// What one sync changed in the mirror.
pub struct SyncResult {
    pub copied: Vec<String>,
    pub updated: Vec<String>,
    pub removed: Vec<String>,
    pub total_files_in_source: usize,
}

/// The entries of `dest` that are not in `source`, in order.
pub open spec fn missing_from(dest: Seq<Seq<char>>, source: Seq<Seq<char>>) -> Seq<Seq<char>>
    decreases dest.len(),
{
    if dest.len() == 0 {
        seq![]
    } else if source.contains(dest.last()) {
        missing_from(dest.drop_last(), source)
    } else {
        missing_from(dest.drop_last(), source).push(dest.last())
    }
}

/// The mirrored paths whose source file is gone.
pub fn removed_paths(source: &Vec<String>, dest: &Vec<String>) -> (res: Vec<String>)
    ensures
        strs(res@) == missing_from(strs(dest@), strs(source@)),
{
    let mut res: Vec<String> = Vec::new();
    let mut i: usize = 0;
    while i < dest.len()
        invariant
            i <= dest@.len(),
            strs(res@) == missing_from(strs(dest@).take(i as int), strs(source@)),
        decreases dest.len() - i,
    {
        proof {
            let t = strs(dest@).take(i + 1);
            assert(t.drop_last() =~= strs(dest@).take(i as int));
            assert(t.last() == dest@[i as int]@);
        }
        if !vec_contains_str(source, dest[i].as_str()) {
            let ghost before = strs(res@);
            res.push(dest[i].clone());
            assert(strs(res@) =~= before.push(dest@[i as int]@));
        }
        i += 1;
    }
    assert(strs(dest@).take(dest@.len() as int) =~= strs(dest@));
    res
}

/// `id/p` for each path.
pub open spec fn prefixed(id: Seq<char>, ps: Seq<Seq<char>>) -> Seq<Seq<char>> {
    ps.map_values(|p: Seq<char>| id.push('/') + p)
}

fn push_prefixed(out: &mut Vec<String>, id: &str, ps: &Vec<String>)
    ensures
        strs(final(out)@) == strs(old(out)@) + prefixed(id@, strs(ps@)),
{
    let mut i: usize = 0;
    while i < ps.len()
        invariant
            i <= ps@.len(),
            strs(out@) == strs(old(out)@) + prefixed(id@, strs(ps@)).take(i as int),
        decreases ps.len() - i,
    {
        let mut v = chars_of(id);
        v.push('/');
        append_str(&mut v, ps[i].as_str());
        let s = string_of(&v);
        let ghost before = strs(out@);
        out.push(s);
        proof {
            assert(strs(out@) =~= before.push(s@));
            assert(prefixed(id@, strs(ps@)).take(i + 1) =~= prefixed(id@, strs(ps@)).take(i as int).push(
                id@.push('/') + ps@[i as int]@,
            ));
        }
        i += 1;
    }
    assert(prefixed(id@, strs(ps@)).take(ps@.len() as int) =~= prefixed(id@, strs(ps@)));
}

/// The paths a sync of repo `id` changed, prefixed by the repo id: the
/// copied, then the updated, then the removed ones.
pub fn changed_paths(id: &str, r: &SyncResult) -> (res: Vec<String>)
    ensures
        strs(res@) == prefixed(id@, strs(r.copied@)) + prefixed(id@, strs(r.updated@)) + prefixed(
            id@,
            strs(r.removed@),
        ),
{
    let mut out: Vec<String> = Vec::new();
    assert(strs(out@) =~= Seq::<Seq<char>>::empty());
    push_prefixed(&mut out, id, &r.copied);
    push_prefixed(&mut out, id, &r.updated);
    push_prefixed(&mut out, id, &r.removed);
    assert(Seq::<Seq<char>>::empty() + prefixed(id@, strs(r.copied@)) =~= prefixed(id@, strs(r.copied@)));
    out
}

/// The branch named by the first line of a git `HEAD` file.
pub open spec fn spec_branch(head: Seq<char>) -> Option<Seq<char>> {
    let ls = lines(head);
    if ls.len() == 0 {
        None
    } else if starts_with(ls[0], "ref: refs/heads/"@) {
        Some(ls[0].skip("ref: refs/heads/"@.len() as int))
    } else {
        None
    }
}

/// The branch a git `HEAD` file points at, if it names one.
pub fn branch_from_head(content: &str) -> (res: Option<String>)
    ensures
        match spec_branch(content@) {
            Some(b) => res matches Some(r) && r@ == b,
            None => res is None,
        },
{
    let ls = split_lines(&chars_of(content));
    if ls.len() == 0 {
        return None;
    }
    let prefix = chars_of("ref: refs/heads/");
    if vec_starts_with(&ls[0], &prefix) {
        let rest = slice_vec(&ls[0], prefix.len(), ls[0].len());
        assert(rest@ =~= ls@[0]@.skip("ref: refs/heads/"@.len() as int));
        Some(string_of(&rest))
    } else {
        None
    }
}

/// Every removed path is a mirrored path with no source file, and every
/// mirrored path with no source file is removed.
pub proof fn lemma_removed_exactly(dest: Seq<Seq<char>>, source: Seq<Seq<char>>)
    ensures
        forall|p: Seq<char>| #[trigger] missing_from(dest, source).contains(p) <==> (dest.contains(p) && !source.contains(p)),
    decreases dest.len(),
{
    broadcast use vstd::seq_lib::group_seq_properties;
    if dest.len() > 0 {
        let d = dest.drop_last();
        lemma_removed_exactly(d, source);
        assert(dest =~= d.push(dest.last()));
        assert(missing_from(dest, source) == if source.contains(dest.last()) {
            missing_from(d, source)
        } else {
            missing_from(d, source).push(dest.last())
        });
        assert forall|p: Seq<char>| #[trigger] missing_from(dest, source).contains(p) <==> (dest.contains(p) && !source.contains(p)) by {
            assert(dest.contains(p) <==> d.contains(p) || p == dest.last());
            if !source.contains(dest.last()) {
                let m = missing_from(d, source);
                assert(m.push(dest.last()).contains(p) <==> m.contains(p) || p == dest.last());
            }
        }
    }
}

/// The directories that are never mirrored, as a list.
pub open spec fn junk_dir_names() -> Seq<Seq<char>> {
    seq![
        ".git"@,
        "target"@,
        "node_modules"@,
        ".next"@,
        "dist"@,
        "build"@,
        "__pycache__"@,
        ".idea"@,
        ".vscode"@,
        ".DS_Store"@,
    ]
}

/// The extensions that are never mirrored, as a list.
pub open spec fn junk_extensions() -> Seq<Seq<char>> {
    seq!["lock"@, "pyc"@, "o"@, "so"@, "dylib"@, "dll"@, "exe"@, "pdb"@, "class"@, "jar"@, "wasm"@]
}

/// A directory is skipped exactly when its name is on the junk list.
pub proof fn lemma_skip_dir_is_junk_list(name: Seq<char>)
    ensures
        spec_skip_dir(name) <==> junk_dir_names().contains(name),
{
    let l = junk_dir_names();
    if spec_skip_dir(name) {
        if name == ".git"@ { assert(l[0] == name); }
        else if name == "target"@ { assert(l[1] == name); }
        else if name == "node_modules"@ { assert(l[2] == name); }
        else if name == ".next"@ { assert(l[3] == name); }
        else if name == "dist"@ { assert(l[4] == name); }
        else if name == "build"@ { assert(l[5] == name); }
        else if name == "__pycache__"@ { assert(l[6] == name); }
        else if name == ".idea"@ { assert(l[7] == name); }
        else if name == ".vscode"@ { assert(l[8] == name); }
        else { assert(l[9] == name); }
    }
}

/// A file extension is skipped exactly when it is on the junk list.
pub proof fn lemma_skip_extension_is_junk_list(ext: Seq<char>)
    ensures
        spec_skip_extension(ext) <==> junk_extensions().contains(ext),
{
    let l = junk_extensions();
    if spec_skip_extension(ext) {
        if ext == "lock"@ { assert(l[0] == ext); }
        else if ext == "pyc"@ { assert(l[1] == ext); }
        else if ext == "o"@ { assert(l[2] == ext); }
        else if ext == "so"@ { assert(l[3] == ext); }
        else if ext == "dylib"@ { assert(l[4] == ext); }
        else if ext == "dll"@ { assert(l[5] == ext); }
        else if ext == "exe"@ { assert(l[6] == ext); }
        else if ext == "pdb"@ { assert(l[7] == ext); }
        else if ext == "class"@ { assert(l[8] == ext); }
        else if ext == "jar"@ { assert(l[9] == ext); }
        else { assert(l[10] == ext); }
    }
}

} // verus!
