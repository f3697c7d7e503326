//! Versions of the identity rules.

use vstd::prelude::*;

verus! {

/// The versions of the rules that node identities depend on.
#[derive(Debug, Clone, Copy, PartialEq, Eq, Structural)]
pub struct HashVersion {
    /// Version of the semantic role codes.
    pub semantic_role_version: u32,
    /// Version of the hashing algorithm.
    pub hash_algo_version: u32,
    /// Version of the canonicalization rules.
    pub canonicalization_version: u32,
}

/// The versions in force.
pub open spec fn current_version() -> HashVersion {
    HashVersion { semantic_role_version: 1, hash_algo_version: 1, canonicalization_version: 1 }
}

impl HashVersion {
    /// The versions in force.
    pub fn current() -> (r: Self)
        ensures
            r == current_version(),
    {
        HashVersion { semantic_role_version: 1, hash_algo_version: 1, canonicalization_version: 1 }
    }

    /// Identities made under two versions are comparable when every
    /// component matches.
    pub fn is_compatible(&self, other: &Self) -> (r: bool)
        ensures
            r == (*self == *other),
    {
        self.semantic_role_version == other.semantic_role_version
            && self.hash_algo_version == other.hash_algo_version
            && self.canonicalization_version == other.canonicalization_version
    }
}

} // verus!
