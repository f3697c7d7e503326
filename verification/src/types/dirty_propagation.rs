//! Dirty marking from a leaf towards the root.

use vstd::prelude::*;
use crate::types::arena::{entry_index, NodeArena, NodeEntry};
use crate::types::node_id::NodeId;
use crate::types::node_stamp::NodeStamp;
use crate::types::telemetry::PerfMetrics;

verus! {

/// The longest chain a walk follows, a guard against cycles.
pub const MAX_DEPTH: usize = 4096;

/// The entries after marking entry `i` dirty.
pub open spec fn mark_at(nodes: Seq<(NodeId, NodeEntry)>, i: int) -> Seq<(NodeId, NodeEntry)> {
    nodes.update(i, (nodes[i].0, NodeEntry { stamp: NodeStamp { dirty: true, ..nodes[i].1.stamp }, ..nodes[i].1 }))
}

/// A walk from `cur` towards the root over at most `fuel` nodes: each
/// clean node is marked dirty and the walk goes on to its parent; it stops
/// at a missing or already dirty node, or at a root. The number of nodes
/// marked, and the entries after.
pub open spec fn dirty_walk(nodes: Seq<(NodeId, NodeEntry)>, cur: NodeId, fuel: nat) -> (nat, Seq<(NodeId, NodeEntry)>)
    decreases fuel,
{
    if fuel == 0 {
        (0, nodes)
    } else {
        match entry_index(nodes, cur) {
            None => (0, nodes),
            Some(i) => if nodes[i].1.stamp.dirty {
                (0, nodes)
            } else {
                match nodes[i].1.node.parent_id {
                    Some(p) => {
                        let rest = dirty_walk(mark_at(nodes, i), p, (fuel - 1) as nat);
                        (rest.0 + 1, rest.1)
                    },
                    None => (1, mark_at(nodes, i)),
                }
            },
        }
    }
}

/// Marks nodes of an arena dirty.
pub struct DirtyPropagator<'a> {
    arena: &'a mut NodeArena,
}

impl<'a> DirtyPropagator<'a> {
    /// The arena being marked.
    pub closed spec fn spec_arena(&self) -> NodeArena {
        *self.arena
    }

    pub fn new(arena: &'a mut NodeArena) -> (r: Self)
        ensures
            r.spec_arena() == *old(arena),
    {
        Self { arena }
    }

    /// Marks the leaf and its ancestors dirty, stopping at the first node
    /// already dirty (whose ancestors are dirty already), at a root or at
    /// `MAX_DEPTH` nodes; returns the number of nodes marked, and raises the
    /// longest dirty chain in `metrics` to it.
    pub fn mark_dirty(&mut self, leaf_id: NodeId, metrics: &mut PerfMetrics) -> (r: usize)
        requires
            old(self).spec_arena().wf(),
        ensures
            final(self).spec_arena().wf(),
            r == dirty_walk(old(self).spec_arena().spec_nodes(), leaf_id, MAX_DEPTH as nat).0,
            final(self).spec_arena().spec_nodes() == dirty_walk(old(self).spec_arena().spec_nodes(), leaf_id, MAX_DEPTH as nat).1,
            final(self).spec_arena().spec_generation() == old(self).spec_arena().spec_generation(),
            *final(metrics) == (PerfMetrics {
                max_dirty_chain: if r > old(metrics).max_dirty_chain { r as u16 } else { old(metrics).max_dirty_chain },
                ..*old(metrics)
            }),
    {
        Self::walk(self.arena, leaf_id, metrics)
    }

    fn walk(arena: &mut NodeArena, leaf_id: NodeId, metrics: &mut PerfMetrics) -> (r: usize)
        requires
            old(arena).wf(),
        ensures
            final(arena).wf(),
            r == dirty_walk(old(arena).spec_nodes(), leaf_id, MAX_DEPTH as nat).0,
            final(arena).spec_nodes() == dirty_walk(old(arena).spec_nodes(), leaf_id, MAX_DEPTH as nat).1,
            final(arena).spec_generation() == old(arena).spec_generation(),
            *final(metrics) == (PerfMetrics {
                max_dirty_chain: if r > old(metrics).max_dirty_chain { r as u16 } else { old(metrics).max_dirty_chain },
                ..*old(metrics)
            }),
    {
        let ghost target = dirty_walk(old(arena).spec_nodes(), leaf_id, MAX_DEPTH as nat);
        let mut current = leaf_id;
        let mut depth: usize = 0;
        let mut done = false;
        while !done && depth < MAX_DEPTH
            invariant
                arena.wf(),
                arena.spec_generation() == old(arena).spec_generation(),
                depth <= MAX_DEPTH,
                done ==> target == (depth as nat, arena.spec_nodes()),
                !done ==> target == ({
                    let rest = dirty_walk(arena.spec_nodes(), current, (MAX_DEPTH - depth) as nat);
                    ((rest.0 + depth) as nat, rest.1)
                }),
                *metrics == (PerfMetrics {
                    max_dirty_chain: if depth > old(metrics).max_dirty_chain { depth as u16 } else { old(metrics).max_dirty_chain },
                    ..*old(metrics)
                }),
            decreases MAX_DEPTH - depth, (if done { 0int } else { 1int }),
        {
            let ghost nodes = arena.spec_nodes();
            proof { crate::types::arena::lemma_entry_index_meaning(nodes, current); }
            match arena.get_mut(&current) {
                None => {
                    done = true;
                },
                Some(entry) => {
                    if entry.stamp.dirty {
                        done = true;
                    } else {
                        entry.stamp.mark_dirty();
                        depth = depth + 1;
                        metrics.update_dirty_chain(depth as u16);
                        match entry.node.parent_id {
                            Some(parent) => {
                                current = parent;
                            },
                            None => {
                                done = true;
                            },
                        }
                    }
                },
            }
        }
        proof {
            if !done {
                assert(depth == MAX_DEPTH);
            }
        }
        depth
    }
}

} // verus!
