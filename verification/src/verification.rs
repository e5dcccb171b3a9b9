//! The consensus result and its verification hash.
//!
//! The hash is a SHA-256 digest over a canonical rendering of the result, in
//! fixed field order, rendered as lowercase hex. Identical results (same
//! field values and source order) always produce an identical digest.

use crate::confidence::SCORE_ONE_MICRO;
use crate::text::{
    bytes_to_hex, dec_chars, hex_chars, is_hex_char, join_commas, join_with_commas,
    lemma_hex_chars_shape, score_chars, score_to_string, string_views, u64_to_string,
};
use sha2::Digest;
use vstd::prelude::*;
use vstd::string::*;

verus! {

/// The outcome of one consensus computation.
pub struct ConsensusResult {
    pub timestamp: u64,
    pub consensus_reached: bool,
    pub sources_verified: Vec<String>,
    /// The confidence score in millionths (`1_000_000` stands for `1.0`).
    pub confidence_micro: u32,
}

impl ConsensusResult {
    /// The confidence score never exceeds `1.0`.
    pub open spec fn valid(self) -> bool {
        self.confidence_micro <= SCORE_ONE_MICRO
    }
}

/// The canonical rendering hashed for verification: the timestamp in
/// decimal, the consensus flag as `true`/`false`, the source labels joined
/// by commas, and the score with exactly six decimal digits, in that order.
pub open spec fn canonical_chars(
    timestamp: u64,
    reached: bool,
    sources: Seq<Seq<char>>,
    micro: u32,
) -> Seq<char> {
    dec_chars(timestamp as int) + (if reached {
        "true"@
    } else {
        "false"@
    }) + join_commas(sources) + score_chars(micro as int)
}

/// What the SHA-256 digest of a string is. The digest is a function of the
/// string's characters alone, so two equal strings always digest alike.
pub uninterp spec fn sha256_of_chars(s: Seq<char>) -> Seq<u8>;

/// Relies on `sha2::Sha256` through the `Digest` trait: the digest of a
/// string's bytes is 32 bytes long and depends on the string alone.
#[verifier::external_body]
fn sha256_digest(s: &str) -> (r: Vec<u8>)
    ensures
        r@ == sha256_of_chars(s@),
        r@.len() == 32,
{
    sha2::Sha256::digest(s.as_bytes()).to_vec()
}

/// The verification hash of a result: the lowercase hex rendering of the
/// SHA-256 digest of the canonical rendering.
pub open spec fn verification_hash_chars(
    timestamp: u64,
    reached: bool,
    sources: Seq<Seq<char>>,
    micro: u32,
) -> Seq<char> {
    hex_chars(sha256_of_chars(canonical_chars(timestamp, reached, sources, micro)))
}

/// Builds the canonical rendering of a result.
pub fn canonical_string(result: &ConsensusResult) -> (r: String)
    ensures
        r@ == canonical_chars(
            result.timestamp,
            result.consensus_reached,
            string_views(result.sources_verified@),
            result.confidence_micro,
        ),
{
    let mut s = u64_to_string(result.timestamp);
    if result.consensus_reached {
        s.append("true");
    } else {
        s.append("false");
    }
    let joined = join_with_commas(&result.sources_verified);
    s.append(joined.as_str());
    let score = score_to_string(result.confidence_micro);
    s.append(score.as_str());
    s
}

/// Computes the verification hash of a result: a fixed-format string of
/// exactly 64 lowercase hexadecimal characters.
pub fn generate_verification_hash(result: &ConsensusResult) -> (r: String)
    ensures
        r@ == verification_hash_chars(
            result.timestamp,
            result.consensus_reached,
            string_views(result.sources_verified@),
            result.confidence_micro,
        ),
        r@.len() == 64,
        forall|i: int| 0 <= i < r@.len() ==> is_hex_char(#[trigger] r@[i]),
{
    let canon = canonical_string(result);
    let digest = sha256_digest(canon.as_str());
    proof {
        lemma_hex_chars_shape(digest@);
    }
    bytes_to_hex(&digest)
}

} // verus!
