//! The content digest of a game record: SHA-256 of its UTF-8 bytes, in
//! standard base64 with padding.

use vstd::prelude::*;

verus! {

/// What SHA-256 gives for the bytes.
pub uninterp spec fn sha256_of(data: Seq<u8>) -> Seq<u8>;

/// What standard base64 with padding gives for the bytes.
pub uninterp spec fn base64_of(data: Seq<u8>) -> Seq<char>;

/// Relies on `ring::digest::digest` with `SHA256`: the 32-byte digest of the data.
#[verifier::external_body]
fn sha256(data: &[u8]) -> (r: Vec<u8>)
    ensures
        r@ == sha256_of(data@),
        r@.len() == 32,
{
    ring::digest::digest(&ring::digest::SHA256, data).as_ref().to_vec()
}

/// Relies on `base64::encode` (standard alphabet, padded): four characters for
/// each started group of three bytes. It panics only where that size overflows.
#[verifier::external_body]
fn base64_encode(data: &[u8]) -> (r: String)
    requires
        data@.len() <= 1_000_000,
    ensures
        r@ == base64_of(data@),
        r@.len() == 4 * ((data@.len() + 2) / 3),
{
    base64::encode(data)
}

/// The digest of a record's text: base64 of SHA-256 of its UTF-8 bytes.
pub open spec fn digest_of(text: Seq<char>) -> Seq<char> {
    base64_of(sha256_of(vstd::utf8::encode_utf8(text)))
}

/// The content digest of a game record: equal texts give equal digests, and
/// every digest is 44 characters long.
pub fn content_digest(text: &str) -> (r: String)
    ensures
        r@ == digest_of(text@),
        r@.len() == 44,
{
    let hash = sha256(text.as_bytes());
    base64_encode(hash.as_slice())
}

} // verus!
