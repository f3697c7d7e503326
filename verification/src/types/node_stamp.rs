//! The freshness stamp of a cached node.

use vstd::prelude::*;
use crate::types::caf::CafHash;

verus! {

/// A node's canonical hash, the epoch it was computed in and whether it
/// has been marked dirty since.
#[derive(Debug, PartialEq, Eq)]
pub struct NodeStamp {
    pub hash: CafHash,
    pub epoch: u32,
    pub dirty: bool,
}

impl Clone for NodeStamp {
    fn clone(&self) -> (r: Self)
        ensures
            r == *self,
    {
        NodeStamp { hash: self.hash.clone(), epoch: self.epoch, dirty: self.dirty }
    }
}

impl NodeStamp {
    /// A clean stamp.
    pub fn new(hash: CafHash, epoch: u32) -> (r: Self)
        ensures
            r == (NodeStamp { hash, epoch, dirty: false }),
    {
        Self { hash, epoch, dirty: false }
    }

    pub fn mark_dirty(&mut self)
        ensures
            *final(self) == (NodeStamp { dirty: true, ..*old(self) }),
    {
        self.dirty = true;
    }

    /// Stale when dirty or computed in an earlier epoch.
    pub fn is_stale(&self, current_epoch: u32) -> (r: bool)
        ensures
            r == (self.dirty || self.epoch < current_epoch),
    {
        self.dirty || self.epoch < current_epoch
    }
}

} // verus!
