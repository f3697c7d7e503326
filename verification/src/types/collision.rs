//! Two independent hashes of a node, to detect identity collisions.

use vstd::prelude::*;

verus! {

/// A node's primary identity and an independent secondary hash.
#[derive(Debug, Clone, Copy, PartialEq, Eq, Structural)]
pub struct NodeFingerprint {
    pub primary: u128,
    pub secondary: u64,
}

impl NodeFingerprint {
    pub fn new(primary: u128, secondary: u64) -> (r: Self)
        ensures
            r == (NodeFingerprint { primary, secondary }),
    {
        Self { primary, secondary }
    }

    /// Two different nodes share a primary identity: the primaries match
    /// while the secondary hashes differ.
    pub fn detect_collision(&self, other: &Self) -> (r: bool)
        ensures
            r == (self.primary == other.primary && self.secondary != other.secondary),
    {
        self.primary == other.primary && self.secondary != other.secondary
    }
}

} // verus!
