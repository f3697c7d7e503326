//! An arena of canonical nodes keyed by identity, with generations for
//! collecting what a pass did not touch.

use vstd::prelude::*;
use crate::types::caf::CafNode;
use crate::types::node_id::NodeId;
use crate::types::node_stamp::NodeStamp;

verus! {

/// A node, its stamp and the generation that last touched it.
pub struct NodeEntry {
    pub node: CafNode,
    pub stamp: NodeStamp,
    pub generation: u64,
}

/// The position of the entry with identity `id`, if any.
pub open spec fn entry_index(nodes: Seq<(NodeId, NodeEntry)>, id: NodeId) -> Option<int>
    decreases nodes.len(),
{
    if nodes.len() == 0 {
        None
    } else if nodes.last().0 == id {
        Some(nodes.len() - 1)
    } else {
        entry_index(nodes.drop_last(), id)
    }
}

/// No identity occurs twice.
pub open spec fn unique_ids(nodes: Seq<(NodeId, NodeEntry)>) -> bool {
    forall|i: int, j: int| 0 <= i < j < nodes.len() ==> nodes[i].0 != nodes[j].0
}

proof fn lemma_entry_index(nodes: Seq<(NodeId, NodeEntry)>, id: NodeId, k: int)
    requires
        0 <= k <= nodes.len(),
        unique_ids(nodes),
        forall|j: int| 0 <= j < k ==> (#[trigger] nodes[j]).0 != id,
    ensures
        k < nodes.len() && nodes[k].0 == id ==> entry_index(nodes, id) == Some(k),
        k == nodes.len() ==> entry_index(nodes, id) is None,
    decreases nodes.len(),
{
    if nodes.len() > 0 {
        let d = nodes.drop_last();
        assert(unique_ids(d));
        if k == nodes.len() {
            lemma_entry_index(d, id, k - 1);
        } else if k < nodes.len() - 1 {
            if nodes[k].0 == id {
                assert(nodes.last().0 != id);
            }
            lemma_entry_index(d, id, k);
        }
    }
}

pub proof fn lemma_entry_index_meaning(nodes: Seq<(NodeId, NodeEntry)>, id: NodeId)
    ensures
        entry_index(nodes, id) is None ==> forall|j: int| 0 <= j < nodes.len() ==> (#[trigger] nodes[j]).0 != id,
        entry_index(nodes, id) matches Some(i) ==> 0 <= i < nodes.len() && nodes[i].0 == id,
    decreases nodes.len(),
{
    if nodes.len() > 0 {
        let d = nodes.drop_last();
        lemma_entry_index_meaning(d, id);
        if nodes.last().0 != id {
            assert forall|j: int| 0 <= j < nodes.len() && entry_index(nodes, id) is None implies (#[trigger] nodes[j]).0 != id by {
                if j < nodes.len() - 1 {
                    assert(nodes[j] == d[j]);
                }
            }
        }
    }
}

/// Canonical nodes keyed by identity.
pub struct NodeArena {
    pub nodes: Vec<(NodeId, NodeEntry)>,
    generation: u64,
}

impl NodeArena {
    /// The current generation.
    pub closed spec fn spec_generation(&self) -> u64 {
        self.generation
    }

    /// Identities are unique.
    pub open spec fn wf(&self) -> bool {
        unique_ids(self.spec_nodes())
    }

    /// The entries, in storage order.
    pub closed spec fn spec_nodes(&self) -> Seq<(NodeId, NodeEntry)> {
        self.nodes@
    }

    pub fn new() -> (r: Self)
        ensures
            r.spec_nodes().len() == 0,
            r.spec_generation() == 0,
            r.wf(),
    {
        Self { nodes: Vec::new(), generation: 0 }
    }

    fn find(&self, id: &NodeId) -> (r: Option<usize>)
        requires
            self.wf(),
        ensures
            match r {
                Some(i) => entry_index(self.spec_nodes(), *id) == Some(i as int) && i < self.spec_nodes().len(),
                None => entry_index(self.spec_nodes(), *id) is None,
            },
    {
        let mut i: usize = 0;
        while i < self.nodes.len()
            invariant
                i <= self.nodes@.len(),
                unique_ids(self.nodes@),
                forall|j: int| 0 <= j < i ==> (#[trigger] self.nodes@[j]).0 != *id,
            decreases self.nodes@.len() - i,
        {
            if self.nodes[i].0.0 == id.0 {
                proof { lemma_entry_index(self.nodes@, *id, i as int); }
                return Some(i);
            }
            i = i + 1;
        }
        proof { lemma_entry_index(self.nodes@, *id, i as int); }
        None
    }

    /// Stores a node under `id` at the current generation, replacing the
    /// entry `id` had.
    pub fn insert(&mut self, id: NodeId, node: CafNode, stamp: NodeStamp)
        requires
            old(self).wf(),
        ensures
            final(self).wf(),
            final(self).spec_generation() == old(self).spec_generation(),
            ({
                let e = NodeEntry { node, stamp, generation: old(self).spec_generation() };
                match entry_index(old(self).spec_nodes(), id) {
                    Some(i) => final(self).spec_nodes() == old(self).spec_nodes().update(i, (id, e)),
                    None => final(self).spec_nodes() == old(self).spec_nodes().push((id, e)),
                }
            }),
    {
        let entry = NodeEntry { node, stamp, generation: self.generation };
        proof { lemma_entry_index_meaning(self.nodes@, id); }
        match self.find(&id) {
            Some(i) => {
                self.nodes.set(i, (id, entry));
            },
            None => {
                self.nodes.push((id, entry));
            },
        }
    }

    /// The entry of `id`, if any.
    pub fn get(&self, id: &NodeId) -> (r: Option<&NodeEntry>)
        requires
            self.wf(),
        ensures
            match entry_index(self.spec_nodes(), *id) {
                Some(i) => r == Some(&self.spec_nodes()[i].1),
                None => r is None,
            },
    {
        match self.find(id) {
            Some(i) => Some(&self.nodes[i].1),
            None => None,
        }
    }

    /// The entry of `id`, to change in place, if any.
    pub fn get_mut(&mut self, id: &NodeId) -> (r: Option<&mut NodeEntry>)
        requires
            old(self).wf(),
        ensures
            final(self).spec_generation() == old(self).spec_generation(),
            match entry_index(old(self).spec_nodes(), *id) {
                Some(i) => r matches Some(e) && *e == old(self).spec_nodes()[i].1
                    && final(self).spec_nodes() == old(self).spec_nodes().update(i, (*id, *final(e))),
                None => r is None && final(self).spec_nodes() == old(self).spec_nodes(),
            },
    {
        proof { lemma_entry_index_meaning(self.nodes@, *id); }
        match self.find(id) {
            Some(i) => Some(&mut self.nodes[i].1),
            None => None,
        }
    }

    /// The entry of `id`, touched by the current generation, to change in
    /// place, if any.
    pub fn get_mut_with_bump(&mut self, id: &NodeId) -> (r: Option<&mut NodeEntry>)
        requires
            old(self).wf(),
        ensures
            final(self).spec_generation() == old(self).spec_generation(),
            match entry_index(old(self).spec_nodes(), *id) {
                Some(i) => r matches Some(e)
                    && *e == (NodeEntry { generation: old(self).spec_generation(), ..old(self).spec_nodes()[i].1 })
                    && final(self).spec_nodes() == old(self).spec_nodes().update(i, (*id, *final(e))),
                None => r is None && final(self).spec_nodes() == old(self).spec_nodes(),
            },
    {
        proof { lemma_entry_index_meaning(self.nodes@, *id); }
        let g = self.generation;
        match self.find(id) {
            Some(i) => {
                let entry = &mut self.nodes[i].1;
                entry.generation = g;
                Some(entry)
            },
            None => None,
        }
    }

    /// Moves the arena to the next generation.
    pub fn bump_generation(&mut self)
        requires
            old(self).spec_generation() < u64::MAX,
        ensures
            final(self).spec_generation() == old(self).spec_generation() + 1,
            final(self).spec_nodes() == old(self).spec_nodes(),
    {
        self.generation = self.generation + 1;
    }

    /// Drops every entry the current generation did not touch.
    pub fn gc(&mut self)
        requires
            old(self).wf(),
        ensures
            final(self).wf(),
            final(self).spec_generation() == old(self).spec_generation(),
            final(self).spec_nodes() == old(self).spec_nodes().filter(|p: (NodeId, NodeEntry)| p.1.generation == old(self).spec_generation()),
    {
        let current = self.generation;
        let ghost pred = |p: (NodeId, NodeEntry)| p.1.generation == current;
        let mut old_nodes: Vec<(NodeId, NodeEntry)> = Vec::new();
        std::mem::swap(&mut old_nodes, &mut self.nodes);
        let ghost src = old_nodes@;
        let mut kept: Vec<(NodeId, NodeEntry)> = Vec::new();
        let mut rest = old_nodes;
        let n = rest.len();
        let mut i: usize = 0;
        while i < n
            invariant
                n == src.len(),
                i <= n,
                rest@ == src.skip(i as int),
                unique_ids(src),
                kept@ == src.take(i as int).filter(pred),
                pred == (|p: (NodeId, NodeEntry)| p.1.generation == current),
            decreases n - i,
        {
            let p = rest.remove(0);
            proof {
                assert(src.take(i + 1).drop_last() =~= src.take(i as int));
                assert(p == src[i as int]);
                reveal(Seq::filter);
            }
            if p.1.generation == current {
                kept.push(p);
            }
            assert(rest@ =~= src.skip(i + 1));
            i = i + 1;
        }
        assert(src.take(n as int) =~= src);
        proof { lemma_filter_unique(src, pred); }
        self.nodes = kept;
    }
}

proof fn lemma_filter_unique(s: Seq<(NodeId, NodeEntry)>, pred: spec_fn((NodeId, NodeEntry)) -> bool)
    requires
        unique_ids(s),
    ensures
        unique_ids(s.filter(pred)),
        forall|i: int| 0 <= i < s.filter(pred).len() ==> s.contains(#[trigger] s.filter(pred)[i]),
    decreases s.len(),
{
    reveal(Seq::filter);
    if s.len() > 0 {
        let d = s.drop_last();
        assert(unique_ids(d));
        lemma_filter_unique(d, pred);
        let f = d.filter(pred);
        assert forall|i: int| 0 <= i < f.len() implies d.contains(#[trigger] f[i]) && s.contains(f[i]) by {
            let k = choose|k: int| 0 <= k < d.len() && d[k] == f[i];
            assert(s[k] == d[k]);
        }
        if pred(s.last()) {
            let g = f.push(s.last());
            assert forall|i: int, j: int| 0 <= i < j < g.len() implies g[i].0 != g[j].0 by {
                if j == g.len() - 1 {
                    let k = choose|k: int| 0 <= k < d.len() && d[k] == f[i];
                    assert(s[k] == d[k]);
                }
            }
            assert forall|i: int| 0 <= i < g.len() implies s.contains(#[trigger] g[i]) by {
                if i == g.len() - 1 {
                    assert(s[s.len() - 1] == s.last());
                }
            }
        }
    }
}

impl Default for NodeArena {
    fn default() -> (r: Self)
        ensures
            r.spec_nodes().len() == 0,
            r.spec_generation() == 0,
    {
        Self::new()
    }
}

} // verus!
