//! A stored game record: its text, its content digest and how many of its
//! plies have been scored into the book.

use vstd::prelude::*;
use crate::digest::{content_digest, digest_of};

verus! {

/// A game record keyed by the digest of its text.
#[derive(Debug)]
pub struct PgnWithDigest {
    /// the record's text
    pub pgn_str: String,
    /// base64 of SHA-256 of the text; the record's identity
    pub sha256_base64: String,
    /// number of plies already scored into the book
    pub processed_depth: usize,
}

impl PgnWithDigest {
    /// A record seen for the first time: nothing of it processed yet.
    pub fn from_pgn(pgn_str: &str) -> (r: PgnWithDigest)
        ensures
            r.pgn_str@ == pgn_str@,
            r.sha256_base64@ == digest_of(pgn_str@),
            r.processed_depth == 0,
    {
        PgnWithDigest {
            pgn_str: pgn_str.to_owned(),
            sha256_base64: content_digest(pgn_str),
            processed_depth: 0,
        }
    }
}

} // verus!
