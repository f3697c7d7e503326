//! Hash records and the two digest functions the engine relies on.

use vstd::prelude::*;
use sha2::Digest;
use crate::types::caf::CafHash;

verus! {

/// The SHA-256 digest of a byte sequence.
pub uninterp spec fn sha256_of(data: Seq<u8>) -> Seq<u8>;

/// The XXH3 64-bit hash of a byte sequence.
pub uninterp spec fn xxh3_of(data: Seq<u8>) -> u64;

/// Calls `sha2::Sha256::digest`: the SHA-256 digest of `data`, which is
/// 32 bytes long.
#[verifier::external_body]
pub(crate) fn sha256_digest(data: &[u8]) -> (r: Vec<u8>)
    ensures
        r@ == sha256_of(data@),
        r@.len() == 32,
{
    sha2::Sha256::digest(data).to_vec()
}

/// Calls `xxhash_rust::xxh3::xxh3_64`: the 64-bit XXH3 hash of `data`.
#[verifier::external_body]
pub(crate) fn xxh3_64_hash(data: &[u8]) -> (r: u64)
    ensures
        r == xxh3_of(data@),
{
    xxhash_rust::xxh3::xxh3_64(data)
}

/// The hash algorithms in use.
#[derive(Debug, Clone, Copy, PartialEq, Eq, Structural)]
pub enum HashAlgorithm {
    Sha256,
}

/// A hash of a node's structure.
#[derive(Debug, Clone)]
pub struct StructuralHash {
    pub algorithm: HashAlgorithm,
    pub value: String,
}

/// A hash of a node's meaning.
#[derive(Debug, Clone)]
pub struct SemanticHash {
    pub algorithm: HashAlgorithm,
    pub value: String,
}

/// A symbol's identity hash in two parts: what dependents see (the
/// signature) and what only the symbol itself sees (the body).
#[derive(Debug, Clone, PartialEq, Eq)]
pub struct SymbolHash {
    pub signature_hash: CafHash,
    pub body_hash: CafHash,
}

} // verus!
