use grab::fingerprint::FileFingerprint;

#[test]
fn same_file_not_dirty() {
    let a = FileFingerprint::from_parts(b"fn main() {}", 10, 12);
    let b = FileFingerprint::from_parts(b"fn main() {}", 10, 12);
    assert!(!a.is_dirty(&b));
}

#[test]
fn changed_content_is_dirty() {
    let a = FileFingerprint::from_parts(b"version 1", 10, 9);
    let b = FileFingerprint::from_parts(b"version 1version 2 is longer", 11, 28);
    assert!(a.is_dirty(&b));
}

#[test]
fn metadata_change_same_content_not_dirty() {
    let a = FileFingerprint::from_parts(b"stable content", 10, 14);
    let b = FileFingerprint::from_parts(b"stable content", 99, 14);
    assert_ne!(a.mtime_ns, b.mtime_ns);
    assert_eq!(a.content_hash, b.content_hash);
    assert!(!a.is_dirty(&b));
}

#[test]
fn same_metadata_is_trusted_without_hashing() {
    let a = FileFingerprint::from_parts(b"one", 5, 3);
    let b = FileFingerprint::from_parts(b"two", 5, 3);
    assert!(!a.is_dirty(&b));
}

#[test]
fn fingerprint_keeps_metadata_and_hash() {
    let a = FileFingerprint::from_parts(b"", 1, 0);
    assert_eq!(a.content_hash, "e3b0c44298fc1c149afbf4c8");
    assert_eq!(a.mtime_ns, 1);
    assert_eq!(a.size, 0);
}
