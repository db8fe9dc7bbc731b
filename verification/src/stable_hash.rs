//! Deterministic content hashes: SHA-256, rendered as lowercase hex and cut
//! to a fixed length.
use vstd::prelude::*;
use sha2::Digest;
use crate::text::string_of;

verus! {

/// The SHA-256 digest of a byte string.
pub uninterp spec fn spec_sha256(data: Seq<u8>) -> Seq<u8>;

/// Calls `sha2::Sha256::digest`. Claimed: the result is the SHA-256 digest
/// of `data` (named `spec_sha256`), which is 32 bytes long.
#[verifier::external_body]
fn sha256_digest(data: &[u8]) -> (res: Vec<u8>)
    ensures
        res@ == spec_sha256(data@),
        res@.len() == 32,
{
    sha2::Sha256::digest(data).to_vec()
}

/// Lowercase hex digit of a value below 16.
pub open spec fn hex_digit(d: u8) -> char {
    if d < 10 {
        (d + 48) as char
    } else {
        (d + 87) as char
    }
}

/// `format!("{:x}", bytes)` for a digest: two lowercase hex digits per byte.
pub open spec fn hex(bytes: Seq<u8>) -> Seq<char>
    decreases bytes.len(),
{
    if bytes.len() == 0 {
        seq![]
    } else {
        hex(bytes.drop_last()) + seq![hex_digit(bytes.last() / 16), hex_digit(bytes.last() % 16)]
    }
}

/// Every character is a lowercase hex digit.
pub open spec fn is_hex_text(s: Seq<char>) -> bool {
    forall|i: int| 0 <= i < s.len() ==> ('0' <= #[trigger] s[i] && s[i] <= '9') || ('a' <= s[i] && s[i] <= 'f')
}

proof fn lemma_hex_digits(bytes: Seq<u8>)
    ensures
        is_hex_text(hex(bytes)),
    decreases bytes.len(),
{
    if bytes.len() > 0 {
        lemma_hex_digits(bytes.drop_last());
        let d1 = bytes.last() / 16;
        let d2 = bytes.last() % 16;
        assert(d1 < 16 && d2 < 16);
        let h = hex(bytes);
        let p = hex(bytes.drop_last());
        assert forall|i: int| 0 <= i < h.len() implies ('0' <= #[trigger] h[i] && h[i] <= '9') || ('a' <= h[i] && h[i] <= 'f') by {
            if i < p.len() {
                assert(h[i] == p[i]);
            } else if i == p.len() {
                assert(h[i] == hex_digit(d1));
            } else {
                assert(h[i] == hex_digit(d2));
            }
        }
    }
}

/// Hash of a code body scoped by its file: the first 12 hex digits of
/// SHA-256 over the path's bytes, a `0xFF` separator, and the body's bytes.
pub open spec fn spec_body_hash(body: Seq<char>, filepath: Seq<char>) -> Seq<char> {
    hex(spec_sha256(hash_input(body, filepath))).take(12)
}

/// Hash of a file's raw bytes: the first 24 hex digits of SHA-256.
pub open spec fn spec_file_hash(content: Seq<u8>) -> Seq<char> {
    hex(spec_sha256(content)).take(24)
}

pub proof fn lemma_hex_len(bytes: Seq<u8>)
    ensures
        hex(bytes).len() == 2 * bytes.len(),
    decreases bytes.len(),
{
    if bytes.len() > 0 {
        lemma_hex_len(bytes.drop_last());
    }
}

fn hex_digit_exec(d: u8) -> (res: char)
    requires
        d < 16,
    ensures
        res == hex_digit(d),
{
    if d < 10 {
        (d + 48) as char
    } else {
        (d + 87) as char
    }
}

fn hex_prefix(bytes: &Vec<u8>, digits: usize) -> (res: String)
    requires
        digits <= 2 * bytes@.len(),
        digits % 2 == 0,
    ensures
        res@ == hex(bytes@).take(digits as int),
{
    let mut out: Vec<char> = Vec::new();
    let mut i: usize = 0;
    let half = digits / 2;
    while i < half
        invariant
            half == digits / 2,
            digits <= 2 * bytes@.len(),
            digits % 2 == 0,
            i <= half,
            out@ == hex(bytes@.take(i as int)),
        decreases half - i,
    {
        let b = bytes[i];
        proof {
            assert(bytes@.take(i + 1).drop_last() =~= bytes@.take(i as int));
            assert(bytes@.take(i + 1).last() == b);
        }
        out.push(hex_digit_exec(b / 16));
        out.push(hex_digit_exec(b % 16));
        i += 1;
        assert(out@ =~= hex(bytes@.take(i as int)));
    }
    proof {
        lemma_hex_take(bytes@, half as int);
    }
    string_of(&out)
}

pub proof fn lemma_hex_take(bytes: Seq<u8>, k: int)
    requires
        0 <= k <= bytes.len(),
    ensures
        hex(bytes).take(2 * k) == hex(bytes.take(k)),
    decreases bytes.len(),
{
    lemma_hex_len(bytes);
    lemma_hex_len(bytes.take(k));
    if k < bytes.len() {
        lemma_hex_take(bytes.drop_last(), k);
        assert(bytes.drop_last().take(k) =~= bytes.take(k));
        lemma_hex_len(bytes.drop_last());
        assert(hex(bytes).take(2 * k) =~= hex(bytes.drop_last()).take(2 * k));
    } else {
        assert(bytes.take(k) =~= bytes);
        assert(hex(bytes).take(2 * k) =~= hex(bytes));
    }
}

fn push_bytes(dst: &mut Vec<u8>, src: &[u8])
    ensures
        final(dst)@ == old(dst)@ + src@,
{
    let mut i: usize = 0;
    while i < src.len()
        invariant
            i <= src.len(),
            dst@ == old(dst)@ + src@.take(i as int),
        decreases src.len() - i,
    {
        dst.push(src[i]);
        i += 1;
        assert(dst@ =~= old(dst)@ + src@.take(i as int));
    }
    assert(src@.take(src.len() as int) =~= src@);
}

/// Compute a deterministic hash for a code body, scoped by its file path.
/// Returns 12 lowercase hex characters.
pub fn stable_hash_body(body: &str, filepath: &str) -> (res: String)
    ensures
        res@ == spec_body_hash(body@, filepath@),
        res@.len() == 12,
        is_hex_text(res@),
{
    let mut data: Vec<u8> = Vec::new();
    push_bytes(&mut data, filepath.as_bytes());
    data.push(0xFFu8);
    push_bytes(&mut data, body.as_bytes());
    proof {
        assert(data@ =~= hash_input(body@, filepath@));
    }
    let digest = sha256_digest(data.as_slice());
    proof {
        lemma_hex_len(digest@);
        lemma_hex_digits(digest@);
    }
    let res = hex_prefix(&digest, 12);
    assert(is_hex_text(res@)) by {
        assert forall|i: int| 0 <= i < res@.len() implies ('0' <= #[trigger] res@[i] && res@[i] <= '9') || ('a' <= res@[i] && res@[i] <= 'f') by {
            assert(res@[i] == hex(digest@)[i]);
        }
    }
    res
}

/// Compute a deterministic hash for a file's raw bytes.
/// Returns 24 lowercase hex characters.
pub fn stable_hash_file(content: &[u8]) -> (res: String)
    ensures
        res@ == spec_file_hash(content@),
        res@.len() == 24,
        is_hex_text(res@),
{
    let digest = sha256_digest(content);
    proof {
        lemma_hex_len(digest@);
        lemma_hex_digits(digest@);
    }
    let res = hex_prefix(&digest, 24);
    assert(is_hex_text(res@)) by {
        assert forall|i: int| 0 <= i < res@.len() implies ('0' <= #[trigger] res@[i] && res@[i] <= '9') || ('a' <= res@[i] && res@[i] <= 'f') by {
            assert(res@[i] == hex(digest@)[i]);
        }
    }
    res
}

/// What is hashed for a body: the path, a `0xFF` separator and the body.
pub open spec fn hash_input(body: Seq<char>, filepath: Seq<char>) -> Seq<u8> {
    crate::text::utf8(filepath) + seq![0xFFu8] + crate::text::utf8(body)
}

proof fn lemma_scalar_bytes_not_ff(x: u32)
    ensures
        forall|k: int| 0 <= k < vstd::utf8::encode_scalar(x).len() ==> #[trigger] vstd::utf8::encode_scalar(x)[k] != 0xFFu8,
{
    assert((x & 0x7F) as u8 != 0xFFu8) by (bit_vector);
    assert((0xC0u8 | ((x >> 6) & 0x1F) as u8) != 0xFFu8) by (bit_vector);
    assert((0xE0u8 | ((x >> 12) & 0x0F) as u8) != 0xFFu8) by (bit_vector);
    assert((0xF0u8 | ((x >> 18) & 0x7) as u8) != 0xFFu8) by (bit_vector);
    assert((0x80u8 | (x & 0x3F) as u8) != 0xFFu8) by (bit_vector);
    assert((0x80u8 | ((x >> 6) & 0x3F) as u8) != 0xFFu8) by (bit_vector);
    assert((0x80u8 | ((x >> 12) & 0x3F) as u8) != 0xFFu8) by (bit_vector);
}

/// The byte `0xFF` never occurs in UTF-8.
pub proof fn lemma_utf8_has_no_ff(s: Seq<char>)
    ensures
        forall|k: int| 0 <= k < crate::text::utf8(s).len() ==> #[trigger] crate::text::utf8(s)[k] != 0xFFu8,
    decreases s.len(),
{
    if s.len() > 0 {
        lemma_utf8_has_no_ff(s.drop_first());
        lemma_scalar_bytes_not_ff(s[0] as u32);
        let e = vstd::utf8::encode_scalar(s[0] as u32);
        let r = crate::text::utf8(s.drop_first());
        assert(crate::text::utf8(s) == e + r);
        assert forall|k: int| 0 <= k < crate::text::utf8(s).len() implies #[trigger] crate::text::utf8(s)[k] != 0xFFu8 by {
            if k < e.len() {
                assert(crate::text::utf8(s)[k] == e[k]);
            } else {
                assert(crate::text::utf8(s)[k] == r[k - e.len()]);
            }
        }
    }
}

/// Different (body, path) pairs never give the same bytes to hash: the
/// separator cannot occur inside the UTF-8 text on either side, so the path
/// and the body can be read back from what is hashed. (Whether SHA-256 then
/// keeps the digests apart is a property of SHA-256.)
pub proof fn lemma_hash_input_injective(b1: Seq<char>, p1: Seq<char>, b2: Seq<char>, p2: Seq<char>)
    requires
        hash_input(b1, p1) == hash_input(b2, p2),
    ensures
        b1 == b2,
        p1 == p2,
{
    let u1 = crate::text::utf8(p1);
    let u2 = crate::text::utf8(p2);
    let v1 = crate::text::utf8(b1);
    let v2 = crate::text::utf8(b2);
    let h = hash_input(b1, p1);
    lemma_utf8_has_no_ff(p1);
    lemma_utf8_has_no_ff(p2);
    assert(h[u1.len() as int] == 0xFFu8);
    assert(hash_input(b2, p2)[u2.len() as int] == 0xFFu8);
    if u1.len() < u2.len() {
        assert(hash_input(b2, p2)[u1.len() as int] == u2[u1.len() as int]);
        assert(false);
    } else if u2.len() < u1.len() {
        assert(h[u2.len() as int] == u1[u2.len() as int]);
        assert(false);
    }
    assert(u1 =~= h.subrange(0, u1.len() as int));
    assert(u2 =~= hash_input(b2, p2).subrange(0, u2.len() as int));
    assert(v1 =~= h.subrange(u1.len() + 1int, h.len() as int));
    assert(v2 =~= hash_input(b2, p2).subrange(u2.len() + 1int, h.len() as int));
    vstd::utf8::encode_utf8_decode_utf8(p1);
    vstd::utf8::encode_utf8_decode_utf8(p2);
    vstd::utf8::encode_utf8_decode_utf8(b1);
    vstd::utf8::encode_utf8_decode_utf8(b2);
}

} // verus!
