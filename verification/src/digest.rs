//! Digests of byte strings.

use vstd::prelude::*;

verus! {

/// The BLAKE3 digest of a byte string.
pub uninterp spec fn blake3_digest(bytes: Seq<u8>) -> Seq<u8>;

/// The SHA-256 digest of a byte string.
pub uninterp spec fn sha256_digest(bytes: Seq<u8>) -> Seq<u8>;

/// `blake3::hash` computes the 32-byte BLAKE3 digest of its input, which
/// depends on the input alone.
#[verifier::external_body]
pub(crate) fn blake3_hash(bytes: &[u8]) -> (digest: Vec<u8>)
    ensures
        digest@ == blake3_digest(bytes@),
        digest@.len() == 32,
{
    blake3::hash(bytes).as_bytes().to_vec()
}

/// `sha2::Sha256::digest` computes the 32-byte SHA-256 digest of its input,
/// which depends on the input alone.
#[verifier::external_body]
pub(crate) fn sha256_hash(bytes: &[u8]) -> (digest: Vec<u8>)
    ensures
        digest@ == sha256_digest(bytes@),
        digest@.len() == 32,
{
    <sha2::Sha256 as sha2::Digest>::digest(bytes).to_vec()
}

} // verus!
