//! Transactions: dependency analysis between the mutations of a batch and a
//! copy-on-write view that stages writes over a base reader.

use vstd::prelude::*;
use vstd::string::*;
use crate::base::{opt_view, EpistemicReader, KnowledgeMutation, MutationId, MutationOp, ResourceId};
use crate::text::{debug_quoted, debug_string};

verus! {

/// How a later mutation depends on an earlier one.
#[derive(Debug, Clone, Copy, PartialEq, Eq, Structural)]
pub enum DependencyType {
    ReadAfterWrite,
    WriteAfterRead,
    WriteAfterWrite,
}

/// A dependency edge from an earlier mutation to a later one.
#[derive(Debug)]
pub struct DependencyEdge {
    pub from: MutationId,
    pub to: MutationId,
    pub dep_type: DependencyType,
}

/// The abstract form of an edge: source id, target id and kind.
pub open spec fn edge_view(e: DependencyEdge) -> (Seq<char>, Seq<char>, DependencyType) {
    (e.from@, e.to@, e.dep_type)
}

/// The resources a mutation reads and writes.
#[derive(Debug)]
pub struct ResourceAccessSet {
    pub reads: Vec<ResourceId>,
    pub writes: Vec<ResourceId>,
}

/// The set of character sequences of a list of resource identifiers.
pub open spec fn id_set(v: Seq<ResourceId>) -> Set<Seq<char>> {
    Set::new(|s: Seq<char>| exists|k: int| 0 <= k < v.len() && v[k]@ == s)
}

/// What a mutation reads: a delete reads its target, an insert reads nothing.
pub open spec fn spec_reads(m: KnowledgeMutation) -> Set<Seq<char>> {
    match m.op {
        MutationOp::Insert { .. } => Set::empty(),
        MutationOp::Delete { resource_id } => set![resource_id@],
    }
}

/// What a mutation writes: its target.
pub open spec fn spec_writes(m: KnowledgeMutation) -> Set<Seq<char>> {
    set![m.op.target()]
}

impl ResourceAccessSet {
    pub fn from_mutation(m: &KnowledgeMutation) -> (r: Self)
        ensures
            id_set(r.reads@) == spec_reads(*m),
            id_set(r.writes@) == spec_writes(*m),
    {
        let mut reads: Vec<ResourceId> = Vec::new();
        let mut writes: Vec<ResourceId> = Vec::new();
        match &m.op {
            MutationOp::Insert { resource_id, .. } => {
                writes.push(resource_id.clone());
            },
            MutationOp::Delete { resource_id } => {
                writes.push(resource_id.clone());
                reads.push(resource_id.clone());
            },
        }
        let r = Self { reads, writes };
        proof {
            assert(r.writes@[0]@ == m.op.target());
            assert(id_set(r.writes@) =~= spec_writes(*m));
            if r.reads@.len() > 0 {
                assert(r.reads@[0]@ == m.op.target());
            }
            assert(id_set(r.reads@) =~= spec_reads(*m));
        }
        r
    }
}

/// The dependency of mutation `b` on an earlier mutation `a`: read after
/// write when `b` reads what `a` writes, else write after read when `a`
/// reads what `b` writes, else write after write when both write a common
/// resource.
pub open spec fn dependency(a: KnowledgeMutation, b: KnowledgeMutation) -> Option<DependencyType> {
    if !spec_writes(a).intersect(spec_reads(b)).is_empty() {
        Some(DependencyType::ReadAfterWrite)
    } else if !spec_reads(a).intersect(spec_writes(b)).is_empty() {
        Some(DependencyType::WriteAfterRead)
    } else if !spec_writes(a).intersect(spec_writes(b)).is_empty() {
        Some(DependencyType::WriteAfterWrite)
    } else {
        None
    }
}

/// The edges out of mutation `i` to mutations `i+1 .. upto`, in order.
pub open spec fn edge_list(ms: Seq<KnowledgeMutation>, i: int, upto: int) -> Seq<(Seq<char>, Seq<char>, DependencyType)>
    decreases upto - i,
{
    if upto <= i + 1 {
        Seq::empty()
    } else {
        let prev = edge_list(ms, i, upto - 1);
        match dependency(ms[i], ms[upto - 1]) {
            Some(t) => prev.push((ms[i].mutation_id@, ms[upto - 1].mutation_id@, t)),
            None => prev,
        }
    }
}

/// Two mutations of the batch share an identifier.
pub open spec fn has_duplicate_ids(ms: Seq<KnowledgeMutation>) -> bool {
    exists|i: int, j: int| 0 <= i < j < ms.len() && ms[i].mutation_id@ == ms[j].mutation_id@
}

/// The message of a refused batch: a dependency cycle at a mutation.
pub open spec fn cycle_message(id: Seq<char>) -> Seq<char> {
    "Cycle detected at: MutationId("@ + debug_quoted(id) + ")"@
}

/// A dependency graph over the mutations of a batch, in batch order.
pub struct TransactionDAG {
    pub nodes: Vec<(MutationId, (KnowledgeMutation, ResourceAccessSet))>,
    pub adjacency: Vec<(MutationId, Vec<DependencyEdge>)>,
}

impl TransactionDAG {
    /// The graph is built over `ms`: one node per mutation in order, with
    /// the edges `edge_list` gives.
    pub open spec fn built_from(&self, ms: Seq<KnowledgeMutation>) -> bool {
        &&& !has_duplicate_ids(ms)
        &&& self.nodes@.len() == ms.len()
        &&& self.adjacency@.len() == ms.len()
        &&& forall|k: int| 0 <= k < ms.len() ==> {
            &&& (#[trigger] self.nodes@[k]).0@ == ms[k].mutation_id@
            &&& self.nodes@[k].1.0 == ms[k]
            &&& id_set(self.nodes@[k].1.1.reads@) == spec_reads(ms[k])
            &&& id_set(self.nodes@[k].1.1.writes@) == spec_writes(ms[k])
            &&& self.adjacency@[k].0@ == ms[k].mutation_id@
            &&& self.adjacency@[k].1@.map_values(|e: DependencyEdge| edge_view(e)) == edge_list(ms, k, ms.len() as int)
        }
    }

    /// The mutations the graph holds, in order.
    pub open spec fn mutations(&self) -> Seq<KnowledgeMutation> {
        self.nodes@.map_values(|n: (MutationId, (KnowledgeMutation, ResourceAccessSet))| n.1.0)
    }

    /// Compiles a batch. A batch in which two mutations share an identifier
    /// has a dependency cycle and is refused; otherwise every pair of
    /// mutations on a common resource gets an edge from the earlier to the
    /// later one, so the graph is acyclic.
    pub fn compile(mutations: Vec<KnowledgeMutation>) -> (r: Result<Self, String>)
        ensures
            r is Err <==> has_duplicate_ids(mutations@),
            r matches Ok(dag) ==> dag.built_from(mutations@),
            r matches Err(m) ==> exists|i: int, j: int| 0 <= i < j < mutations@.len()
                && mutations@[i].mutation_id@ == mutations@[j].mutation_id@
                && m@ == cycle_message(mutations@[j].mutation_id@),
    {
        let n = mutations.len();
        // Duplicate identifiers close a cycle through a self-edge.
        let mut j: usize = 0;
        while j < n
            invariant
                n == mutations@.len(),
                j <= n,
                forall|a: int, b: int| 0 <= a < b < j ==> mutations@[a].mutation_id@ != mutations@[b].mutation_id@,
            decreases n - j,
        {
            let mut i: usize = 0;
            while i < j
                invariant
                    n == mutations@.len(),
                    i <= j < n,
                    forall|a: int| 0 <= a < i ==> mutations@[a].mutation_id@ != mutations@[j as int].mutation_id@,
                decreases j - i,
            {
                if mutations[i].mutation_id.0 == mutations[j].mutation_id.0 {
                    let mut m = String::from_str("Cycle detected at: MutationId(");
                    let q = debug_string(mutations[j].mutation_id.0.as_str());
                    m.append(q.as_str());
                    m.append(")");
                    return Err(m);
                }
                i = i + 1;
            }
            j = j + 1;
        }
        let mut nodes: Vec<(MutationId, (KnowledgeMutation, ResourceAccessSet))> = Vec::new();
        let mut adjacency: Vec<(MutationId, Vec<DependencyEdge>)> = Vec::new();
        let mut i: usize = 0;
        while i < n
            invariant
                n == mutations@.len(),
                !has_duplicate_ids(mutations@),
                i <= n,
                nodes@.len() == i,
                adjacency@.len() == i,
                forall|k: int| 0 <= k < i ==> {
                    &&& (#[trigger] nodes@[k]).0@ == mutations@[k].mutation_id@
                    &&& nodes@[k].1.0 == mutations@[k]
                    &&& id_set(nodes@[k].1.1.reads@) == spec_reads(mutations@[k])
                    &&& id_set(nodes@[k].1.1.writes@) == spec_writes(mutations@[k])
                    &&& adjacency@[k].0@ == mutations@[k].mutation_id@
                    &&& adjacency@[k].1@.map_values(|e: DependencyEdge| edge_view(e)) == edge_list(mutations@, k, n as int)
                },
            decreases n - i,
        {
            let m = mutations[i].clone();
            let access = ResourceAccessSet::from_mutation(&m);
            let edges = Self::edges_after(&mutations, i);
            nodes.push((m.mutation_id.clone(), (m, access)));
            adjacency.push((mutations[i].mutation_id.clone(), edges));
            i = i + 1;
        }
        Ok(TransactionDAG { nodes, adjacency })
    }

    /// The dependency of `b` on `a`, computed.
    fn dependency_of(a: &KnowledgeMutation, b: &KnowledgeMutation) -> (r: Option<DependencyType>)
        ensures
            r == dependency(*a, *b),
    {
        let same = match (&a.op, &b.op) {
            (MutationOp::Insert { resource_id: x, .. }, MutationOp::Insert { resource_id: y, .. }) => x.0 == y.0,
            (MutationOp::Insert { resource_id: x, .. }, MutationOp::Delete { resource_id: y }) => x.0 == y.0,
            (MutationOp::Delete { resource_id: x }, MutationOp::Insert { resource_id: y, .. }) => x.0 == y.0,
            (MutationOp::Delete { resource_id: x }, MutationOp::Delete { resource_id: y }) => x.0 == y.0,
        };
        let a_del = match &a.op {
            MutationOp::Delete { .. } => true,
            _ => false,
        };
        let b_del = match &b.op {
            MutationOp::Delete { .. } => true,
            _ => false,
        };
        proof {
            let wa = spec_writes(*a);
            let wb = spec_writes(*b);
            let ra = spec_reads(*a);
            let rb = spec_reads(*b);
            if same {
                assert(wa.intersect(wb).contains(a.op.target()));
                if b_del {
                    assert(wa.intersect(rb).contains(a.op.target()));
                }
                if a_del {
                    assert(ra.intersect(wb).contains(a.op.target()));
                }
                if !b_del {
                    assert(wa.intersect(rb) =~= Set::empty());
                }
                if !a_del {
                    assert(ra.intersect(wb) =~= Set::empty());
                }
            } else {
                assert(wa.intersect(rb) =~= Set::empty());
                assert(ra.intersect(wb) =~= Set::empty());
                assert(wa.intersect(wb) =~= Set::empty());
            }
        }
        if !same {
            None
        } else if b_del {
            Some(DependencyType::ReadAfterWrite)
        } else if a_del {
            Some(DependencyType::WriteAfterRead)
        } else {
            Some(DependencyType::WriteAfterWrite)
        }
    }

    fn edges_after(ms: &Vec<KnowledgeMutation>, i: usize) -> (r: Vec<DependencyEdge>)
        requires
            i < ms@.len(),
        ensures
            r@.map_values(|e: DependencyEdge| edge_view(e)) == edge_list(ms@, i as int, ms@.len() as int),
    {
        let mut edges: Vec<DependencyEdge> = Vec::new();
        let _n = ms.len();
        let mut j: usize = i + 1;
        while j < ms.len()
            invariant
                i < j <= ms@.len(),
                edges@.map_values(|e: DependencyEdge| edge_view(e)) == edge_list(ms@, i as int, j as int),
            decreases ms@.len() - j,
        {
            let ghost before = edges@;
            match Self::dependency_of(&ms[i], &ms[j]) {
                Some(t) => {
                    edges.push(DependencyEdge {
                        from: ms[i].mutation_id.clone(),
                        to: ms[j].mutation_id.clone(),
                        dep_type: t,
                    });
                    assert(edges@.map_values(|e: DependencyEdge| edge_view(e))
                        =~= before.map_values(|e: DependencyEdge| edge_view(e)).push(
                            (ms@[i as int].mutation_id@, ms@[j as int].mutation_id@, t)));
                },
                None => {},
            }
            j = j + 1;
        }
        edges
    }

    /// The edges out of the node with identifier `id`.
    pub fn edges_from(&self, id: &MutationId) -> (r: Option<&Vec<DependencyEdge>>)
        ensures
            r is None <==> forall|k: int| 0 <= k < self.adjacency@.len() ==> self.adjacency@[k].0@ != id@,
            r matches Some(v) ==> exists|k: int| 0 <= k < self.adjacency@.len()
                && self.adjacency@[k].0@ == id@ && *v == self.adjacency@[k].1
                && forall|q: int| 0 <= q < k ==> self.adjacency@[q].0@ != id@,
    {
        let mut k: usize = 0;
        while k < self.adjacency.len()
            invariant
                k <= self.adjacency@.len(),
                forall|q: int| 0 <= q < k ==> self.adjacency@[q].0@ != id@,
            decreases self.adjacency@.len() - k,
        {
            if self.adjacency[k].0.0 == id.0 {
                return Some(&self.adjacency[k].1);
            }
            k = k + 1;
        }
        None
    }

    /// An execution order of a compiled batch in which every mutation comes
    /// after the mutations it depends on: the batch order.
    pub fn topological_sort(&self) -> (r: Vec<MutationId>)
        requires
            self.built_from(self.mutations()),
        ensures
            r@.len() == self.nodes@.len(),
            forall|k: int| 0 <= k < r@.len() ==> r@[k] == #[trigger] self.nodes@[k].0,
    {
        let mut order: Vec<MutationId> = Vec::new();
        let mut k: usize = 0;
        while k < self.nodes.len()
            invariant
                k <= self.nodes@.len(),
                order@.len() == k,
                forall|q: int| 0 <= q < k ==> order@[q] == #[trigger] self.nodes@[q].0,
            decreases self.nodes@.len() - k,
        {
            order.push(self.nodes[k].0.clone());
            k = k + 1;
        }
        order
    }
}

/// A view that stages writes and deletes over a base reader.
pub struct TransactionalView<'a, B: EpistemicReader> {
    pub base: &'a B,
    pub overlay: Vec<(ResourceId, Option<String>)>,
}

/// The staged state of `id` in an overlay, if it was staged: the last
/// staging of `id` wins.
pub open spec fn staged(overlay: Seq<(ResourceId, Option<String>)>, id: Seq<char>) -> Option<Option<Seq<char>>>
    decreases overlay.len(),
{
    if overlay.len() == 0 {
        None
    } else if overlay.last().0@ == id {
        Some(opt_view(overlay.last().1))
    } else {
        staged(overlay.drop_last(), id)
    }
}

impl<'a, B: EpistemicReader> TransactionalView<'a, B> {
    pub fn new(base: &'a B) -> (r: Self)
        ensures
            r.base == base,
            r.overlay@.len() == 0,
    {
        Self { base, overlay: Vec::new() }
    }

    pub fn stage_write(&mut self, id: ResourceId, content: String)
        ensures
            final(self).base == old(self).base,
            forall|s: Seq<char>| #[trigger] staged(final(self).overlay@, s) == if s == id@ {
                Some(Some(content@))
            } else {
                staged(old(self).overlay@, s)
            },
    {
        let ghost old_overlay = self.overlay@;
        self.overlay.push((id, Some(content)));
        assert(self.overlay@.drop_last() =~= old_overlay);
    }

    pub fn stage_delete(&mut self, id: ResourceId)
        ensures
            final(self).base == old(self).base,
            forall|s: Seq<char>| #[trigger] staged(final(self).overlay@, s) == if s == id@ {
                Some(None::<Seq<char>>)
            } else {
                staged(old(self).overlay@, s)
            },
    {
        let ghost old_overlay = self.overlay@;
        self.overlay.push((id, None));
        assert(self.overlay@.drop_last() =~= old_overlay);
    }

    /// The staged state of `id`, searching from the latest staging.
    fn lookup(&self, id: &ResourceId) -> (r: Option<&Option<String>>)
        ensures
            match r {
                Some(c) => staged(self.overlay@, id@) == Some(opt_view(*c)),
                None => staged(self.overlay@, id@) is None,
            },
    {
        let mut k: usize = self.overlay.len();
        assert(self.overlay@.take(k as int) =~= self.overlay@);
        while k > 0
            invariant
                k <= self.overlay@.len(),
                staged(self.overlay@, id@) == staged(self.overlay@.take(k as int), id@),
            decreases k,
        {
            let ghost pre = self.overlay@.take(k as int);
            assert(pre.drop_last() =~= self.overlay@.take(k - 1));
            if self.overlay[k - 1].0.0 == id.0 {
                return Some(&self.overlay[k - 1].1);
            }
            k = k - 1;
        }
        None
    }
}

impl<'a, B: EpistemicReader> EpistemicReader for TransactionalView<'a, B> {
    open spec fn spec_read(&self, id: Seq<char>) -> Option<Seq<char>> {
        match staged(self.overlay@, id) {
            Some(c) => c,
            None => self.base.spec_read(id),
        }
    }

    fn read_unit(&self, id: &ResourceId) -> (r: Option<String>) {
        match self.lookup(id) {
            Some(Some(content)) => Some(content.clone()),
            Some(None) => None,
            None => self.base.read_unit(id),
        }
    }

    fn unit_exists(&self, id: &ResourceId) -> (r: bool) {
        match self.lookup(id) {
            Some(c) => c.is_some(),
            None => self.base.unit_exists(id),
        }
    }
}

} // verus!
