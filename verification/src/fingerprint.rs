//! File fingerprints: a content hash plus the metadata used for quick
//! rejection, and the rule that decides whether a file changed.
use vstd::prelude::*;
use crate::stable_hash::{spec_file_hash, stable_hash_file};
use crate::strip_generic::str_equals;

verus! {

/// What is remembered about a file to notice later changes.
#[derive(Clone, Debug)]
pub struct FileFingerprint {
    /// SHA-256 of file contents (first 24 hex chars)
    pub content_hash: String,
    /// Nanosecond mtime for quick rejection
    pub mtime_ns: u128,
    /// File size in bytes for quick rejection
    pub size: u64,
}

/// The change rule: identical metadata means unchanged; otherwise the
/// content hashes decide.
pub open spec fn spec_is_dirty(old_fp: FileFingerprint, cur: FileFingerprint) -> bool {
    if old_fp.mtime_ns == cur.mtime_ns && old_fp.size == cur.size {
        false
    } else {
        old_fp.content_hash@ != cur.content_hash@
    }
}

impl FileFingerprint {
    /// The fingerprint of a file whose bytes, modification time and size
    /// have been read.
    pub fn from_parts(content: &[u8], mtime_ns: u128, size: u64) -> (res: Self)
        ensures
            res.content_hash@ == spec_file_hash(content@),
            res.mtime_ns == mtime_ns,
            res.size == size,
    {
        let content_hash = stable_hash_file(content);
        FileFingerprint { content_hash, mtime_ns, size }
    }

    /// Determine if the file has changed compared to a previous fingerprint.
    /// Uses a two-tier strategy:
    /// 1. Fast path: if mtime AND size are identical, assume unchanged.
    /// 2. Slow path: if mtime or size differ, check content hash.
    pub fn is_dirty(&self, current: &Self) -> (res: bool)
        ensures
            res == spec_is_dirty(*self, *current),
    {
        if self.mtime_ns == current.mtime_ns && self.size == current.size {
            return false;
        }
        !str_equals(self.content_hash.as_str(), current.content_hash.as_str())
    }
}

/// A fingerprint is never dirty against itself, nor against any fingerprint
/// with the same content hash: only a change of content counts.
pub proof fn lemma_same_content_never_dirty(a: FileFingerprint, b: FileFingerprint)
    requires
        a.content_hash@ == b.content_hash@,
    ensures
        !spec_is_dirty(a, b),
        !spec_is_dirty(a, a),
{
}

/// A change of content together with a change of size or time is always
/// reported; a change of content with identical size and time is not seen.
pub proof fn lemma_changed_content_dirty(a: FileFingerprint, b: FileFingerprint)
    requires
        a.content_hash@ != b.content_hash@,
    ensures
        spec_is_dirty(a, b) <==> (a.mtime_ns != b.mtime_ns || a.size != b.size),
{
}

} // verus!
