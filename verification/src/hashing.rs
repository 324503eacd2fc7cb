//! Content hashes of indexed files: the lowercase hex form of the SHA-256
//! digest of the file's text.
use vstd::prelude::*;

use sha2::Digest;

verus! {

/// SHA-256 digest of the UTF-8 encoding of a text.
pub uninterp spec fn sha256_of_text(s: Seq<char>) -> Seq<u8>;

/// Calls `sha2::Sha256::digest` on the bytes of `s`. The digest is named
/// [`sha256_of_text`]; the hash function itself is not restated here. What
/// is stated is its fixed output size of 32 bytes.
#[verifier::external_body]
fn sha256_digest(s: &str) -> (r: Vec<u8>)
    ensures
        r@ == sha256_of_text(s@),
        r@.len() == 32,
{
    sha2::Sha256::digest(s.as_bytes()).to_vec()
}

/// The lowercase hex digit for `n < 16`.
pub open spec fn hex_digit(n: int) -> char {
    if n < 10 {
        (n + 48) as char
    } else {
        (n + 87) as char
    }
}

/// Lowercase hex encoding: two digits per byte, high nibble first.
pub open spec fn hex_string(bytes: Seq<u8>) -> Seq<char>
    decreases bytes.len(),
{
    if bytes.len() == 0 {
        Seq::empty()
    } else {
        hex_string(bytes.drop_last()) + seq![
            hex_digit(bytes.last() as int / 16),
            hex_digit(bytes.last() as int % 16),
        ]
    }
}

/// Hex encoding doubles the length.
pub proof fn lemma_hex_string_len(bytes: Seq<u8>)
    ensures
        hex_string(bytes).len() == 2 * bytes.len(),
    decreases bytes.len(),
{
    if bytes.len() > 0 {
        lemma_hex_string_len(bytes.drop_last());
    }
}

/// Calls `hex::encode`, which writes each byte as two lowercase hex digits,
/// the high nibble first.
#[verifier::external_body]
fn hex_encode(bytes: &Vec<u8>) -> (r: String)
    ensures
        r@ == hex_string(bytes@),
{
    hex::encode(bytes)
}

/// The content hash of a text: the lowercase hex form of its SHA-256 digest,
/// 64 characters long.
pub fn sha256_hex(s: &str) -> (r: String)
    ensures
        r@ == hex_string(sha256_of_text(s@)),
        r@.len() == 64,
{
    let d = sha256_digest(s);
    proof {
        lemma_hex_string_len(d@);
    }
    hex_encode(&d)
}

} // verus!
