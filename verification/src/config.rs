//! Which files are scanned and how each kind is processed.
use vstd::prelude::*;
use crate::strip_generic::str_equals;
use crate::text::{chars_of, string_of};

verus! {

/// How a file type is processed.
#[derive(PartialEq, Eq, Structural, Clone, Copy, Debug)]
pub enum FileKind {
    /// Full AST compression, goes into the skeleton.
    Rust,
    /// Comments stripped and whitespace collapsed.
    Structured,
    /// Served verbatim.
    Raw,
}

/// Processing rule for one file extension.
#[derive(Clone, Debug)]
pub struct FileTypeRule {
    pub extension: String,
    pub kind: FileKind,
    pub include_in_skeleton: bool,
    pub strip_comments: bool,
    pub collapse_whitespace: bool,
}

/// The rules and the directories and patterns to skip.
#[derive(Clone, Debug)]
pub struct ScanConfig {
    pub rules: Vec<FileTypeRule>,
    pub skip_dirs: Vec<String>,
    pub skip_patterns: Vec<String>,
}

/// A rule as a tuple of plain values.
pub type RuleView = (Seq<char>, FileKind, bool, bool, bool);

pub open spec fn rule_view(r: FileTypeRule) -> RuleView {
    (r.extension@, r.kind, r.include_in_skeleton, r.strip_comments, r.collapse_whitespace)
}

pub open spec fn rule_views(rs: Seq<FileTypeRule>) -> Seq<RuleView> {
    rs.map_values(|r: FileTypeRule| rule_view(r))
}

/// The views of a list of strings.
pub open spec fn str_views(v: Seq<String>) -> Seq<Seq<char>> {
    v.map_values(|s: String| s@)
}

/// The built-in rule table.
pub open spec fn default_rule_table() -> Seq<RuleView> {
    seq![
        ("rs"@, FileKind::Rust, true, false, false),
        ("toml"@, FileKind::Structured, false, true, true),
        ("yml"@, FileKind::Structured, false, true, true),
        ("yaml"@, FileKind::Structured, false, true, true),
        ("json"@, FileKind::Structured, false, false, true),
        ("sql"@, FileKind::Structured, false, true, true),
        ("proto"@, FileKind::Structured, false, true, true),
        ("env"@, FileKind::Structured, false, true, true),
        ("md"@, FileKind::Raw, false, false, false),
        ("sh"@, FileKind::Raw, false, true, true),
    ]
}

/// The built-in directories to skip.
pub open spec fn default_skip_dirs() -> Seq<Seq<char>> {
    seq![
        "target"@,
        "node_modules"@,
        ".git"@,
        "dist"@,
        "build"@,
        "__pycache__"@,
        ".idea"@,
        ".vscode"@,
    ]
}

/// The built-in file patterns to skip.
pub open spec fn default_skip_patterns() -> Seq<Seq<char>> {
    seq!["*.lock"@, "*.min.js"@, "*.min.css"@]
}

fn rule(ext: &str, kind: FileKind, skel: bool, strip: bool, collapse: bool) -> (res: FileTypeRule)
    ensures
        rule_view(res) == (ext@, kind, skel, strip, collapse),
{
    let v = chars_of(ext);
    FileTypeRule {
        extension: string_of(&v),
        kind,
        include_in_skeleton: skel,
        strip_comments: strip,
        collapse_whitespace: collapse,
    }
}

fn owned(s: &str) -> (res: String)
    ensures
        res@ == s@,
{
    let v = chars_of(s);
    string_of(&v)
}

impl Default for ScanConfig {
    fn default() -> (res: Self)
        ensures
            rule_views(res.rules@) == default_rule_table(),
            str_views(res.skip_dirs@) == default_skip_dirs(),
            str_views(res.skip_patterns@) == default_skip_patterns(),
    {
        let mut rules: Vec<FileTypeRule> = Vec::new();
        rules.push(rule("rs", FileKind::Rust, true, false, false));
        rules.push(rule("toml", FileKind::Structured, false, true, true));
        rules.push(rule("yml", FileKind::Structured, false, true, true));
        rules.push(rule("yaml", FileKind::Structured, false, true, true));
        rules.push(rule("json", FileKind::Structured, false, false, true));
        rules.push(rule("sql", FileKind::Structured, false, true, true));
        rules.push(rule("proto", FileKind::Structured, false, true, true));
        rules.push(rule("env", FileKind::Structured, false, true, true));
        rules.push(rule("md", FileKind::Raw, false, false, false));
        rules.push(rule("sh", FileKind::Raw, false, true, true));
        let mut skip_dirs: Vec<String> = Vec::new();
        skip_dirs.push(owned("target"));
        skip_dirs.push(owned("node_modules"));
        skip_dirs.push(owned(".git"));
        skip_dirs.push(owned("dist"));
        skip_dirs.push(owned("build"));
        skip_dirs.push(owned("__pycache__"));
        skip_dirs.push(owned(".idea"));
        skip_dirs.push(owned(".vscode"));
        let mut skip_patterns: Vec<String> = Vec::new();
        skip_patterns.push(owned("*.lock"));
        skip_patterns.push(owned("*.min.js"));
        skip_patterns.push(owned("*.min.css"));
        assert(rule_views(rules@) =~= default_rule_table());
        assert(str_views(skip_dirs@) =~= default_skip_dirs());
        assert(str_views(skip_patterns@) =~= default_skip_patterns());
        ScanConfig { rules, skip_dirs, skip_patterns }
    }
}

// ───────────────────────── paths ─────────────────────────

/// Index of the last `c` in `s`, or -1.
pub open spec fn last_index_of(s: Seq<char>, c: char) -> int
    decreases s.len(),
{
    if s.len() == 0 {
        -1
    } else if s.last() == c {
        s.len() - 1
    } else {
        last_index_of(s.drop_last(), c)
    }
}

pub proof fn lemma_last_index_of(s: Seq<char>, c: char)
    ensures
        -1 <= last_index_of(s, c) < s.len(),
        last_index_of(s, c) >= 0 ==> s[last_index_of(s, c)] == c,
        forall|j: int| last_index_of(s, c) < j < s.len() ==> s[j] != c,
    decreases s.len(),
{
    if s.len() > 0 && s.last() != c {
        lemma_last_index_of(s.drop_last(), c);
        assert forall|j: int| last_index_of(s, c) < j < s.len() implies s[j] != c by {
            if j < s.len() - 1 {
                assert(s[j] == s.drop_last()[j]);
            }
        }
    }
}

/// `Path::file_name`: the last component, ignoring empty and `.` ones;
/// none when that component is `..` or there is none.
pub open spec fn spec_file_name(p: Seq<char>) -> Option<Seq<char>>
    decreases p.len(),
{
    let k = last_index_of(p, '/');
    let piece = p.skip(k + 1);
    if piece.len() == 0 || piece == "."@ {
        if k < 0 {
            None
        } else {
            proof {
                lemma_last_index_of(p, '/');
            }
            spec_file_name(p.take(k))
        }
    } else if piece == ".."@ {
        None
    } else {
        Some(piece)
    }
}

/// `Path::extension`: the text after the last `.` of the file name, when
/// that dot is not its first character.
pub open spec fn spec_extension(p: Seq<char>) -> Option<Seq<char>> {
    match spec_file_name(p) {
        Some(name) => {
            let k = last_index_of(name, '.');
            if k <= 0 {
                None
            } else {
                Some(name.skip(k + 1))
            }
        },
        None => None,
    }
}

pub(crate) fn last_index(s: &Vec<char>, c: char, upto: usize) -> (res: Option<usize>)
    requires
        upto <= s.len(),
    ensures
        match res {
            Some(k) => k == last_index_of(s@.take(upto as int), c),
            None => last_index_of(s@.take(upto as int), c) == -1,
        },
{
    let mut k = upto;
    proof {
        lemma_last_index_of(s@.take(upto as int), c);
    }
    while k > 0
        invariant
            k <= upto <= s.len(),
            last_index_of(s@.take(k as int), c) == last_index_of(s@.take(upto as int), c),
        decreases k,
    {
        if s[k - 1] == c {
            assert(s@.take(k as int).last() == c);
            return Some(k - 1);
        }
        assert(s@.take(k as int).drop_last() =~= s@.take(k - 1));
        k -= 1;
    }
    None
}

fn file_name_range(p: &Vec<char>, upto: usize) -> (res: Option<(usize, usize)>)
    requires
        upto <= p.len(),
    ensures
        match spec_file_name(p@.take(upto as int)) {
            Some(name) => res matches Some(r) && r.0 <= r.1 <= p.len() && p@.subrange(
                r.0 as int,
                r.1 as int,
            ) == name,
            None => res is None,
        },
    decreases upto,
{
    let ghost s = p@.take(upto as int);
    let k = last_index(p, '/', upto);
    proof {
        lemma_last_index_of(s, '/');
    }
    let start = match k {
        Some(k) => k + 1,
        None => 0,
    };
    let piece = crate::text::slice_vec(p, start, upto);
    assert(piece@ =~= s.skip(last_index_of(s, '/') + 1));
    if piece.len() == 0 || str_vec_equals(&piece, ".") {
        match k {
            None => None,
            Some(k) => {
                assert(s.take(k as int) =~= p@.take(k as int));
                file_name_range(p, k)
            },
        }
    } else if str_vec_equals(&piece, "..") {
        None
    } else {
        Some((start, upto))
    }
}

/// Does the buffer equal the literal?
pub fn str_vec_equals(v: &Vec<char>, s: &str) -> (res: bool)
    ensures
        res == (v@ == s@),
{
    let w = string_of(v);
    str_equals(w.as_str(), s)
}

/// The extension of a path, as `Path::extension` computes it.
pub fn file_extension(path: &str) -> (res: Option<String>)
    ensures
        match spec_extension(path@) {
            Some(e) => res matches Some(r) && r@ == e,
            None => res is None,
        },
{
    let p = chars_of(path);
    assert(p@.take(p.len() as int) =~= p@);
    match file_name_range(&p, p.len()) {
        None => None,
        Some((a, b)) => {
            let name = crate::text::slice_vec(&p, a, b);
            let k = last_index(&name, '.', name.len());
            assert(name@.take(name.len() as int) =~= name@);
            proof {
                lemma_last_index_of(name@, '.');
            }
            match k {
                Some(k) if k > 0 => {
                    let e = crate::text::slice_vec(&name, k + 1, name.len());
                    assert(e@ =~= name@.skip(k + 1));
                    Some(string_of(&e))
                },
                _ => None,
            }
        },
    }
}

impl ScanConfig {
    /// The first rule whose extension is the path's extension.
    pub fn rule_for(&self, path: &str) -> (res: Option<&FileTypeRule>)
        ensures
            match spec_extension(path@) {
                Some(e) => match res {
                    Some(r) => exists|i: int|
                        0 <= i < self.rules@.len() && self.rules@[i] == *r && r.extension@ == e
                            && forall|j: int| 0 <= j < i ==> self.rules@[j].extension@ != e,
                    None => forall|j: int| 0 <= j < self.rules@.len() ==> self.rules@[j].extension@ != e,
                },
                None => res is None,
            },
    {
        let ext = match file_extension(path) {
            Some(e) => e,
            None => return None,
        };
        let mut i: usize = 0;
        while i < self.rules.len()
            invariant
                i <= self.rules@.len(),
                spec_extension(path@) == Some(ext@),
                forall|j: int| 0 <= j < i ==> self.rules@[j].extension@ != ext@,
            decreases self.rules.len() - i,
        {
            if str_equals(self.rules[i].extension.as_str(), ext.as_str()) {
                let r = &self.rules[i];
                assert(self.rules@[i as int] == *r);
                return Some(r);
            }
            i += 1;
        }
        None
    }

    /// Is the directory name one of the directories to skip?
    pub fn should_skip_dir(&self, dir_name: &str) -> (res: bool)
        ensures
            res == str_views(self.skip_dirs@).contains(dir_name@),
    {
        let mut i: usize = 0;
        while i < self.skip_dirs.len()
            invariant
                i <= self.skip_dirs@.len(),
                forall|j: int| 0 <= j < i ==> self.skip_dirs@[j]@ != dir_name@,
            decreases self.skip_dirs.len() - i,
        {
            if str_equals(self.skip_dirs[i].as_str(), dir_name) {
                assert(str_views(self.skip_dirs@)[i as int] == dir_name@);
                return true;
            }
            i += 1;
        }
        assert(!str_views(self.skip_dirs@).contains(dir_name@)) by {
            if str_views(self.skip_dirs@).contains(dir_name@) {
                let j = choose|j: int| 0 <= j < str_views(self.skip_dirs@).len() && str_views(self.skip_dirs@)[j] == dir_name@;
                assert(self.skip_dirs@[j]@ == dir_name@);
            }
        }
        false
    }
}

} // verus!
