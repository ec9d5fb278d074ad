//! SHA-256 over byte strings, computed incrementally.

use sha2::Digest;
use vstd::prelude::*;
use vstd::string::StringExecFns;

verus! {

/// A running SHA-256 computation: a `sha2::Sha256`. Nothing is known of it
/// but what it has absorbed.
#[verifier::external_body]
pub struct Hasher {
    inner: sha2::Sha256,
}

/// Length of a SHA-256 digest in bytes.
pub const DIGEST_LEN: usize = 32;

/// The SHA-256 digest of a byte string.
pub uninterp spec fn sha256(data: Seq<u8>) -> [u8; 32];

/// The bytes that a running hasher has absorbed so far, in order.
pub uninterp spec fn absorbed(hasher: Hasher) -> Seq<u8>;

/// `sha2::Sha256::new`: a fresh hasher has absorbed nothing.
#[verifier::external_body]
pub(crate) fn hasher_new() -> (hasher: Hasher)
    ensures
        absorbed(hasher) == Seq::<u8>::empty(),
{
    Hasher { inner: sha2::Sha256::new() }
}

/// `sha2::Sha256::update`: the hasher absorbs `data` after what it already
/// holds.
#[verifier::external_body]
pub(crate) fn hasher_update(hasher: &mut Hasher, data: &[u8])
    ensures
        absorbed(*final(hasher)) == absorbed(*old(hasher)) + data@,
{
    hasher.inner.update(data)
}

/// `sha2::Sha256::finalize`: the digest of everything the hasher absorbed.
#[verifier::external_body]
pub(crate) fn hasher_finalize(hasher: Hasher) -> (digest: [u8; 32])
    ensures
        digest == sha256(absorbed(hasher)),
{
    hasher.inner.finalize().into()
}

/// The SHA-256 digest of `data`.
pub fn sha256_of(data: &[u8]) -> (digest: [u8; 32])
    ensures
        digest == sha256(data@),
{
    let mut hasher = hasher_new();
    hasher_update(&mut hasher, data);
    assert(Seq::<u8>::empty() + data@ =~= data@);
    hasher_finalize(hasher)
}

/// Whether `digest` and `other` hold the same bytes. Every byte is looked at,
/// wherever the first difference is.
pub fn digests_equal(digest: &[u8; 32], other: &[u8]) -> (same: bool)
    ensures
        same == (digest@ == other@),
{
    if other.len() != 32 {
        return false;
    }
    let mut diff: u8 = 0;
    let mut i: usize = 0;
    while i < 32
        invariant
            i <= 32,
            other.len() == 32,
            diff == 0 <==> forall|k: int| 0 <= k < i ==> digest[k] == other[k],
        decreases 32 - i,
    {
        let x: u8 = digest[i];
        let y: u8 = other[i];
        assert(((diff | (x ^ y)) == 0) <==> (diff == 0 && x == y)) by (bit_vector);
        diff = diff | (x ^ y);
        i += 1;
    }
    assert(diff == 0 <==> digest@ =~= other@);
    diff == 0
}

/// The lower-case hexadecimal digit for a value below 16.
pub open spec fn hex_digit_char(digit: u8) -> char {
    if digit < 10 {
        (0x30 + digit) as char
    } else {
        (0x57 + digit) as char
    }
}

/// Bytes as text: two lower-case hexadecimal digits for each byte.
pub open spec fn hex_lower(bytes: Seq<u8>) -> Seq<char> {
    Seq::new(
        2 * bytes.len(),
        |i: int|
            if i % 2 == 0 {
                hex_digit_char(bytes[i / 2] / 16)
            } else {
                hex_digit_char(bytes[i / 2] % 16)
            },
    )
}

/// `hex::encode`: each byte becomes two lower-case hexadecimal digits, the
/// high one first.
#[verifier::external_body]
pub(crate) fn hex_encode(bytes: &[u8]) -> (text: String)
    ensures
        text@ == hex_lower(bytes@),
{
    hex::encode(bytes)
}

/// What to tell the user when the digests differ.
pub open spec fn mismatch_text(expected: Seq<u8>, received: Seq<u8>) -> Seq<char> {
    "File integrity check failed: hash mismatch\nExpected: "@ + hex_lower(expected)
        + "\nReceived: "@ + hex_lower(received)
}

/// The message for a digest mismatch: the digest computed over the payload
/// and the digest that came with it, both in hexadecimal.
pub fn mismatch_report(expected: &[u8; 32], received: &[u8]) -> (text: String)
    ensures
        text@ == mismatch_text(expected@, received@),
{
    let mut text = "File integrity check failed: hash mismatch\nExpected: ".to_owned();
    text.append(hex_encode(expected.as_slice()).as_str());
    text.append("\nReceived: ");
    text.append(hex_encode(received).as_str());
    text
}

} // verus!
