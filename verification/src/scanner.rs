//! Turning a source file into what the index stores for it.
use vstd::prelude::*;
use crate::cache::BodyMeta;
use crate::compress::{compress_code, record_views, spec_compress_code, Record};
use crate::config::{FileKind, FileTypeRule};
use crate::strip::{
    lemma_c_comments_len, remove_empty_lines, remove_rust_comments, remove_test_modules,
    without_c_comments, without_empty_lines, without_test_modules,
};
use crate::strip_generic::{collapse_whitespace, collapsed, strip_comments, stripped_for};
use crate::strmap::StrMap;
use crate::text::{chars_of, count_lines, lines, string_of, utf8};

verus! {

/// A file as the index stores it.
pub struct ProcessedFile {
    pub rel_path: String,
    pub extension: String,
    pub kind: FileKind,
    pub loc: usize,
    pub byte_size: usize,
    pub code: String,
    /// For Rust files: compressed skeleton segment
    pub skeleton_segment: Option<String>,
    /// For Rust files: extracted bodies (hash, meta, body)
    pub bodies: Vec<(String, BodyMeta, String)>,
}

/// The files of one scan, their total line count and a count per extension.
pub struct ScanResult {
    pub files: Vec<ProcessedFile>,
    pub total_loc: usize,
    pub by_type: StrMap<usize>,
}

/// Files larger than this many bytes are not indexed.
pub const MAX_FILE_BYTES: usize = 5_000_000;

/// Is a file of this many bytes too large to index?
pub fn is_too_large(byte_len: usize) -> (res: bool)
    ensures
        res == (byte_len > MAX_FILE_BYTES),
{
    byte_len > MAX_FILE_BYTES
}

/// An extracted body as plain values: hash, path, line count, byte size, text.
pub open spec fn body_view(t: (String, BodyMeta, String)) -> (Seq<char>, Seq<char>, nat, nat, Seq<char>) {
    (t.0@, t.1.filepath@, t.1.loc as nat, t.1.byte_size as nat, t.2@)
}

/// The stored form of a compression record.
pub open spec fn record_body(r: (Seq<char>, Seq<char>, Seq<char>, nat)) -> (Seq<char>, Seq<char>, nat, nat, Seq<char>) {
    (r.0, r.1, r.3, utf8(r.2).len(), r.2)
}

/// A Rust file after comments, test modules and empty lines are removed.
pub open spec fn rust_cleaned(code: Seq<char>) -> Seq<char> {
    without_empty_lines(without_test_modules(without_c_comments(code)))
}

/// A structured file after its rule's cleaning steps.
pub open spec fn structured_cleaned(code: Seq<char>, ext: Seq<char>, strip: bool, collapse: bool) -> Seq<char> {
    let c1 = if strip { stripped_for(code, ext) } else { code };
    if collapse { collapsed(c1) } else { c1 }
}

/// The stored forms of a list of bodies.
pub open spec fn body_views(bs: Seq<(String, BodyMeta, String)>) -> Seq<(Seq<char>, Seq<char>, nat, nat, Seq<char>)> {
    bs.map_values(|t: (String, BodyMeta, String)| body_view(t))
}

/// The stored forms of a list of compression records.
pub open spec fn record_bodies(rs: Seq<(Seq<char>, Seq<char>, Seq<char>, nat)>) -> Seq<(Seq<char>, Seq<char>, nat, nat, Seq<char>)> {
    rs.map_values(|r: (Seq<char>, Seq<char>, Seq<char>, nat)| record_body(r))
}

/// A processed Rust file: the cleaned code, its skeleton segment and bodies
/// from the compression result `c`.
pub open spec fn rust_processed(
    p: ProcessedFile,
    rel_path: Seq<char>,
    ext: Seq<char>,
    kind: FileKind,
    code: Seq<char>,
    c: (Seq<(Seq<char>, Seq<char>, Seq<char>, nat)>, Seq<char>),
) -> bool {
    &&& processed_as(p, rel_path, ext, kind, rust_cleaned(code))
    &&& match p.skeleton_segment {
        Some(s) => s@ == c.1,
        None => false,
    }
    &&& body_views(p.bodies@) == record_bodies(c.0)
}

/// The common fields of a processed file.
pub open spec fn processed_as(p: ProcessedFile, rel_path: Seq<char>, ext: Seq<char>, kind: FileKind, code: Seq<char>) -> bool {
    &&& p.rel_path@ == rel_path
    &&& p.extension@ == ext
    &&& p.kind == kind
    &&& p.loc == lines(code).len()
    &&& p.byte_size == utf8(code).len()
    &&& p.code@ == code
}

/// The number of bytes of a string.
fn byte_len(s: &String) -> (res: usize)
    ensures
        res == utf8(s@).len(),
{
    s.as_str().as_bytes().len()
}

/// Store the compression records as bodies with their metadata.
fn bodies_of(recs: Vec<Record>) -> (res: Vec<(String, BodyMeta, String)>)
    ensures
        body_views(res@) == record_bodies(record_views(recs@)),
{
    let ghost want = record_bodies(record_views(recs@));
    let mut res: Vec<(String, BodyMeta, String)> = Vec::new();
    let mut i: usize = 0;
    while i < recs.len()
        invariant
            i <= recs@.len(),
            want == record_bodies(record_views(recs@)),
            body_views(res@) == want.take(i as int),
        decreases recs.len() - i,
    {
        let r = &recs[i];
        let size = byte_len(&r.2);
        let t = (r.0.clone(), BodyMeta { filepath: r.1.clone(), loc: r.3, byte_size: size }, r.2.clone());
        let ghost before = res@;
        res.push(t);
        proof {
            assert(body_view(t) == want[i as int]);
            assert(body_views(res@) =~= body_views(before).push(body_view(t)));
            assert(want.take(i + 1) =~= want.take(i as int).push(want[i as int]));
        }
        i += 1;
    }
    assert(want.take(recs@.len() as int) =~= want);
    res
}

/// Clean a Rust file, then compress it into a skeleton segment and bodies.
/// The code is taken as the formatter left it (or raw where formatting is
/// off).
pub fn process_rust(code: &str, rel_path: &str, extension: String, kind: FileKind) -> (res: ProcessedFile)
    requires
        code@.len() <= i32::MAX,
    ensures
        rust_processed(res, rel_path@, extension@, kind, code@, spec_compress_code(rust_cleaned(code@), rel_path@)),
{
    let no_comments = remove_rust_comments(code);
    proof {
        lemma_c_comments_len(code@, 0, crate::strip::CommentState::Code, true);
    }
    let no_tests = remove_test_modules(no_comments.as_str());
    let cleaned = remove_empty_lines(no_tests.as_str());
    let (hashes, skeleton_segment) = compress_code(cleaned.as_str(), rel_path);
    let loc = count_lines(&chars_of(cleaned.as_str()));
    let byte_size = byte_len(&cleaned);
    let bodies = bodies_of(hashes);
    ProcessedFile {
        rel_path: string_of(&chars_of(rel_path)),
        extension,
        kind,
        loc,
        byte_size,
        code: cleaned,
        skeleton_segment: Some(skeleton_segment),
        bodies,
    }
}

/// Strip comments and collapse blank lines as the rule asks. Structured
/// files are not part of the skeleton and have no bodies extracted.
pub fn process_structured(code: &str, rel_path: &str, rule: &FileTypeRule, extension: String, kind: FileKind) -> (res: ProcessedFile)
    ensures
        processed_as(
            res,
            rel_path@,
            extension@,
            kind,
            structured_cleaned(code@, rule.extension@, rule.strip_comments, rule.collapse_whitespace),
        ),
        res.skeleton_segment is None,
        res.bodies@.len() == 0,
{
    let mut text = string_of(&chars_of(code));
    if rule.strip_comments {
        text = strip_comments(text.as_str(), rule.extension.as_str());
    }
    if rule.collapse_whitespace {
        text = collapse_whitespace(text.as_str());
    }
    let loc = count_lines(&chars_of(text.as_str()));
    let byte_size = byte_len(&text);
    ProcessedFile {
        rel_path: string_of(&chars_of(rel_path)),
        extension,
        kind,
        loc,
        byte_size,
        code: text,
        skeleton_segment: None,
        bodies: Vec::new(),
    }
}

/// A file served as it is.
pub fn process_raw(code: &str, rel_path: &str, extension: String, kind: FileKind) -> (res: ProcessedFile)
    ensures
        processed_as(res, rel_path@, extension@, kind, code@),
        res.skeleton_segment is None,
        res.bodies@.len() == 0,
{
    let text = string_of(&chars_of(code));
    let loc = count_lines(&chars_of(code));
    let byte_size = byte_len(&text);
    ProcessedFile {
        rel_path: string_of(&chars_of(rel_path)),
        extension,
        kind,
        loc,
        byte_size,
        code: text,
        skeleton_segment: None,
        bodies: Vec::new(),
    }
}

/// Process a file by the kind its rule names. For Rust files `code` is the
/// text after formatting (or raw where formatting is off).
pub fn process_file(code: &str, rel_path: &str, rule: &FileTypeRule) -> (res: ProcessedFile)
    requires
        rule.kind == FileKind::Rust ==> code@.len() <= i32::MAX,
    ensures
        match rule.kind {
            FileKind::Rust => rust_processed(
                res,
                rel_path@,
                rule.extension@,
                rule.kind,
                code@,
                spec_compress_code(rust_cleaned(code@), rel_path@),
            ),
            FileKind::Structured => processed_as(
                res,
                rel_path@,
                rule.extension@,
                rule.kind,
                structured_cleaned(code@, rule.extension@, rule.strip_comments, rule.collapse_whitespace),
            ) && res.skeleton_segment is None && res.bodies@.len() == 0,
            FileKind::Raw => processed_as(res, rel_path@, rule.extension@, rule.kind, code@)
                && res.skeleton_segment is None && res.bodies@.len() == 0,
        },
{
    let ext = rule.extension.clone();
    let kind = rule.kind;
    match rule.kind {
        FileKind::Rust => process_rust(code, rel_path, ext, kind),
        FileKind::Structured => process_structured(code, rel_path, rule, ext, kind),
        FileKind::Raw => process_raw(code, rel_path, ext, kind),
    }
}

impl ScanResult {
    /// A scan that found nothing yet.
    pub fn new() -> (res: Self)
        ensures
            res.files@.len() == 0,
            res.total_loc == 0,
            res.by_type.spec_map() == Map::<Seq<char>, usize>::empty(),
    {
        ScanResult { files: Vec::new(), total_loc: 0, by_type: StrMap::new() }
    }

    /// Count a processed file under its extension and add it to the scan.
    pub fn record(&mut self, p: ProcessedFile)
        requires
            old(self).total_loc + p.loc <= usize::MAX,
            old(self).by_type.spec_map().dom().contains(p.extension@) ==> old(self).by_type.spec_map()[p.extension@] < usize::MAX,
        ensures
            final(self).files@ == old(self).files@.push(p),
            final(self).total_loc == old(self).total_loc + p.loc,
            final(self).by_type.spec_map() == old(self).by_type.spec_map().insert(
                p.extension@,
                if old(self).by_type.spec_map().dom().contains(p.extension@) {
                    (old(self).by_type.spec_map()[p.extension@] + 1) as usize
                } else {
                    1
                },
            ),
    {
        let n: usize = match self.by_type.get(p.extension.as_str()) {
            Some(c) => *c + 1,
            None => 1,
        };
        self.by_type.insert(p.extension.clone(), n);
        self.total_loc = self.total_loc + p.loc;
        self.files.push(p);
    }
}

} // verus!
