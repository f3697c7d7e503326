//! The transitive closure of pairwise alignment relations, and the state of
//! a federation it implies.

use vstd::prelude::*;
use crate::base::{EpochId, NodeId};
use crate::text::str_eq;
use crate::vfp::alignment::{compose, compose_view, rank, rank_of, AlignmentRelation, RelationView};

verus! {

/// Identifiers as characters.
pub open spec fn node_views(v: Seq<NodeId>) -> Seq<Seq<char>> {
    v.map_values(|n: NodeId| n@)
}

/// Relations keyed by their ordered pair of identifiers, as plain values.
pub open spec fn rel_views(v: Seq<((NodeId, NodeId), AlignmentRelation)>) -> Seq<((Seq<char>, Seq<char>), RelationView)> {
    v.map_values(|e: ((NodeId, NodeId), AlignmentRelation)| ((e.0.0@, e.0.1@), e.1@))
}

/// The relation recorded for the ordered pair `(a, b)`.
pub open spec fn rel_lookup(rv: Seq<((Seq<char>, Seq<char>), RelationView)>, a: Seq<char>, b: Seq<char>) -> Option<RelationView>
    decreases rv.len(),
{
    if rv.len() == 0 {
        None
    } else if rv.last().0 == (a, b) {
        Some(rv.last().1)
    } else {
        rel_lookup(rv.drop_last(), a, b)
    }
}

/// Pairwise alignment relations among a set of nodes.
pub struct ClosureGraph {
    nodes: Vec<NodeId>,
    relations: Vec<((NodeId, NodeId), AlignmentRelation)>,
    identical: AlignmentRelation,
}

impl ClosureGraph {
    /// The nodes, in the order first added.
    pub closed spec fn spec_nodes(&self) -> Seq<Seq<char>> {
        node_views(self.nodes@)
    }

    /// The relation recorded for the ordered pair `(a, b)`.
    pub closed spec fn spec_rel(&self, a: Seq<char>, b: Seq<char>) -> Option<RelationView> {
        rel_lookup(rel_views(self.relations@), a, b)
    }

    /// Nodes occur once, pairs occur once, and every pair is of nodes.
    pub closed spec fn wf(&self) -> bool {
        &&& node_views(self.nodes@).no_duplicates()
        &&& forall|i: int, j: int| 0 <= i < j < self.relations@.len()
            ==> (#[trigger] rel_views(self.relations@)[i]).0 != (#[trigger] rel_views(self.relations@)[j]).0
        &&& forall|i: int| 0 <= i < self.relations@.len()
            ==> node_views(self.nodes@).contains((#[trigger] rel_views(self.relations@)[i]).0.0)
                && node_views(self.nodes@).contains(rel_views(self.relations@)[i].0.1)
        &&& self.identical@ == RelationView::Identical
    }

    /// The relation between `a` and `b` in either order; a node is identical
    /// to itself.
    pub open spec fn spec_get(&self, a: Seq<char>, b: Seq<char>) -> Option<RelationView> {
        if a == b {
            Some(RelationView::Identical)
        } else {
            match self.spec_rel(a, b) {
                Some(r) => Some(r),
                None => self.spec_rel(b, a),
            }
        }
    }

    pub fn new() -> (r: Self)
        ensures
            r.wf(),
            r.spec_nodes() == Seq::<Seq<char>>::empty(),
            forall|a: Seq<char>, b: Seq<char>| #[trigger] r.spec_rel(a, b) is None,
    {
        let r = Self { nodes: Vec::new(), relations: Vec::new(), identical: AlignmentRelation::Identical };
        assert(r.spec_nodes() =~= Seq::<Seq<char>>::empty());
        assert(rel_views(r.relations@) =~= Seq::<((Seq<char>, Seq<char>), RelationView)>::empty());
        r
    }

    /// Adds a node unless present.
    pub fn add_node(&mut self, node: NodeId)
        requires
            old(self).wf(),
        ensures
            final(self).wf(),
            final(self).spec_nodes() == if old(self).spec_nodes().contains(node@) {
                old(self).spec_nodes()
            } else {
                old(self).spec_nodes().push(node@)
            },
            forall|a: Seq<char>, b: Seq<char>| #[trigger] final(self).spec_rel(a, b) == old(self).spec_rel(a, b),
    {
        let ghost nv = node_views(self.nodes@);
        let mut i: usize = 0;
        while i < self.nodes.len()
            invariant
                i <= self.nodes@.len(),
                *self == *old(self),
                self.wf(),
                nv == node_views(self.nodes@),
                forall|j: int| 0 <= j < i ==> nv[j] != node@,
            decreases self.nodes@.len() - i,
        {
            if str_eq(self.nodes[i].0.as_str(), node.0.as_str()) {
                assert(nv[i as int] == node@);
                return;
            }
            i = i + 1;
        }
        let ghost n0 = node;
        self.nodes.push(node);
        proof {
            assert(node_views(self.nodes@) =~= nv.push(n0@));
            assert(!nv.contains(n0@));
            assert forall|x: Seq<char>| nv.contains(x) implies node_views(self.nodes@).contains(x) by {
                let j = choose|j: int| 0 <= j < nv.len() && nv[j] == x;
                assert(node_views(self.nodes@)[j] == x);
            }
        }
    }

    /// Records the relation of the ordered pair `(a, b)`, adding both nodes;
    /// a relation recorded for that pair before is replaced.
    pub fn add_relation(&mut self, a: NodeId, b: NodeId, r: AlignmentRelation)
        requires
            old(self).wf(),
        ensures
            final(self).wf(),
            final(self).spec_nodes() == {
                let s1 = if old(self).spec_nodes().contains(a@) { old(self).spec_nodes() } else { old(self).spec_nodes().push(a@) };
                if s1.contains(b@) { s1 } else { s1.push(b@) }
            },
            forall|x: Seq<char>, y: Seq<char>| #[trigger] final(self).spec_rel(x, y) == if (x, y) == (a@, b@) {
                Some(r@)
            } else {
                old(self).spec_rel(x, y)
            },
    {
        self.add_node(a.clone());
        let ghost mid = *self;
        self.add_node(b.clone());
        let ghost v = rel_views(self.relations@);
        proof {
            assert forall|x: Seq<char>, y: Seq<char>| #[trigger] rel_lookup(v, x, y) == old(self).spec_rel(x, y) by {
                assert(self.spec_rel(x, y) == mid.spec_rel(x, y));
                assert(mid.spec_rel(x, y) == old(self).spec_rel(x, y));
            }
        }
        let ghost key = (a@, b@);
        let ghost n1 = self.spec_nodes();
        proof {
            assert(self.spec_nodes().contains(a@)) by {
                if !old(self).spec_nodes().contains(a@) {
                    let s1 = old(self).spec_nodes().push(a@);
                    assert(s1[s1.len() - 1] == a@);
                    if !s1.contains(b@) {
                        assert(s1.push(b@)[s1.len() - 1] == a@);
                    }
                } else {
                    let j = choose|j: int| 0 <= j < old(self).spec_nodes().len() && old(self).spec_nodes()[j] == a@;
                    let s1 = old(self).spec_nodes();
                    if !s1.contains(b@) {
                        assert(s1.push(b@)[j] == a@);
                    }
                }
            }
            assert(self.spec_nodes().contains(b@)) by {
                let s1 = if old(self).spec_nodes().contains(a@) { old(self).spec_nodes() } else { old(self).spec_nodes().push(a@) };
                if !s1.contains(b@) {
                    assert(s1.push(b@)[s1.len() as int] == b@);
                }
            }
        }
        let mut k: usize = 0;
        while k < self.relations.len()
            invariant
                self.wf(),
                v == rel_views(self.relations@),
                key == (a@, b@),
                self.spec_nodes() == n1,
                n1 == ({
                    let s1 = if old(self).spec_nodes().contains(a@) { old(self).spec_nodes() } else { old(self).spec_nodes().push(a@) };
                    if s1.contains(b@) { s1 } else { s1.push(b@) }
                }),
                forall|x: Seq<char>, y: Seq<char>| #[trigger] rel_lookup(v, x, y) == old(self).spec_rel(x, y),
                self.spec_nodes().contains(a@),
                self.spec_nodes().contains(b@),
                k <= v.len(),
                forall|q: int| 0 <= q < k ==> v[q].0 != key,
            decreases v.len() - k,
        {
            if str_eq(self.relations[k].0.0.0.as_str(), a.0.as_str()) && str_eq(self.relations[k].0.1.0.as_str(), b.0.as_str()) {
                let ghost e = ((a, b), r);
                self.relations.set(k, ((a, b), r));
                proof {
                    let w = rel_views(self.relations@);
                    assert(w =~= v.update(k as int, (key, r@)));
                    lemma_rel_lookup_update(v, k as int, r@);
                }
                return;
            }
            k = k + 1;
        }
        let ghost rv = r@;
        self.relations.push(((a, b), r));
        proof {
            let w = rel_views(self.relations@);
            assert(w =~= v.push((key, rv)));
            assert(w.drop_last() =~= v);
            assert forall|x: Seq<char>, y: Seq<char>| #[trigger] rel_lookup(w, x, y) == if (x, y) == key {
                Some(rv)
            } else {
                rel_lookup(v, x, y)
            } by {}
            assert forall|i: int| 0 <= i < w.len() implies node_views(self.nodes@).contains((#[trigger] w[i]).0.0)
                && node_views(self.nodes@).contains(w[i].0.1) by {
                if i < v.len() {
                    assert(w[i] == v[i]);
                }
            }
        }
    }

    /// The relation between `a` and `b` in either order; a node is identical
    /// to itself.
    pub fn get_relation(&self, a: &NodeId, b: &NodeId) -> (r: Option<&AlignmentRelation>)
        requires
            self.wf(),
        ensures
            match r {
                Some(x) => self.spec_get(a@, b@) == Some(x@),
                None => self.spec_get(a@, b@) is None,
            },
    {
        if str_eq(a.0.as_str(), b.0.as_str()) {
            return Some(&self.identical);
        }
        match self.find_relation(a, b) {
            Some(k) => Some(&self.relations[k].1),
            None => match self.find_relation(b, a) {
                Some(k) => Some(&self.relations[k].1),
                None => None,
            },
        }
    }

    fn find_relation(&self, a: &NodeId, b: &NodeId) -> (r: Option<usize>)
        requires
            self.wf(),
        ensures
            match r {
                Some(k) => k < self.relations@.len() && self.spec_rel(a@, b@) == Some(self.relations@[k as int].1@),
                None => self.spec_rel(a@, b@) is None,
            },
    {
        let ghost v = rel_views(self.relations@);
        let mut k: usize = 0;
        while k < self.relations.len()
            invariant
                self.wf(),
                v == rel_views(self.relations@),
                k <= v.len(),
                forall|q: int| 0 <= q < k ==> v[q].0 != (a@, b@),
            decreases v.len() - k,
        {
            if str_eq(self.relations[k].0.0.0.as_str(), a.0.as_str()) && str_eq(self.relations[k].0.1.0.as_str(), b.0.as_str()) {
                proof { lemma_rel_lookup_at(v, k as int); }
                return Some(k);
            }
            k = k + 1;
        }
        proof { lemma_rel_lookup_none(v, a@, b@); }
        None
    }

    pub fn node_count(&self) -> (r: usize)
        ensures
            r == self.spec_nodes().len(),
    {
        self.nodes.len()
    }
}

/// Pairs are unique.
pub open spec fn rel_keys_unique(v: Seq<((Seq<char>, Seq<char>), RelationView)>) -> bool {
    forall|i: int, j: int| 0 <= i < j < v.len() ==> (#[trigger] v[i]).0 != (#[trigger] v[j]).0
}

proof fn lemma_rel_lookup_at(v: Seq<((Seq<char>, Seq<char>), RelationView)>, k: int)
    requires
        rel_keys_unique(v),
        0 <= k < v.len(),
    ensures
        rel_lookup(v, v[k].0.0, v[k].0.1) == Some(v[k].1),
    decreases v.len(),
{
    if k < v.len() - 1 {
        assert(v[k].0 != v[v.len() - 1].0);
        assert(v.drop_last()[k] == v[k]);
        lemma_rel_lookup_at(v.drop_last(), k);
    }
}

proof fn lemma_rel_lookup_none(v: Seq<((Seq<char>, Seq<char>), RelationView)>, a: Seq<char>, b: Seq<char>)
    requires
        forall|i: int| 0 <= i < v.len() ==> (#[trigger] v[i]).0 != (a, b),
    ensures
        rel_lookup(v, a, b) is None,
    decreases v.len(),
{
    if v.len() > 0 {
        assert(v[v.len() - 1].0 != (a, b));
        assert forall|i: int| 0 <= i < v.drop_last().len() implies (#[trigger] v.drop_last()[i]).0 != (a, b) by {
            assert(v.drop_last()[i] == v[i]);
        }
        lemma_rel_lookup_none(v.drop_last(), a, b);
    }
}

proof fn lemma_rel_lookup_update(v: Seq<((Seq<char>, Seq<char>), RelationView)>, k: int, r: RelationView)
    requires
        rel_keys_unique(v),
        0 <= k < v.len(),
    ensures
        rel_keys_unique(v.update(k, (v[k].0, r))),
        forall|x: Seq<char>, y: Seq<char>| #[trigger] rel_lookup(v.update(k, (v[k].0, r)), x, y) == if (x, y) == v[k].0 {
            Some(r)
        } else {
            rel_lookup(v, x, y)
        },
{
    let w = v.update(k, (v[k].0, r));
    assert forall|i: int, j: int| 0 <= i < j < w.len() implies (#[trigger] w[i]).0 != (#[trigger] w[j]).0 by {
        assert(v[i].0 != v[j].0);
    }
    assert forall|x: Seq<char>, y: Seq<char>| #[trigger] rel_lookup(w, x, y) == if (x, y) == v[k].0 {
        Some(r)
    } else {
        rel_lookup(v, x, y)
    } by {
        if (x, y) == v[k].0 {
            lemma_rel_lookup_at(w, k);
        } else if exists|j: int| 0 <= j < v.len() && (#[trigger] v[j]).0 == (x, y) {
            let j = choose|j: int| 0 <= j < v.len() && (#[trigger] v[j]).0 == (x, y);
            assert(w[j] == v[j]);
            lemma_rel_lookup_at(v, j);
            lemma_rel_lookup_at(w, j);
        } else {
            lemma_rel_lookup_none(v, x, y);
            assert forall|i: int| 0 <= i < w.len() implies (#[trigger] w[i]).0 != (x, y) by {
                if i != k {
                    assert(w[i] == v[i]);
                }
            }
            lemma_rel_lookup_none(w, x, y);
        }
    }
}

/// The relation a closure starts from for the pair of nodes `i`, `j`: the
/// one recorded for them, else identity of a node with itself, else none.
pub open spec fn init_cell(nodes: Seq<Seq<char>>, rv: Seq<((Seq<char>, Seq<char>), RelationView)>, i: int, j: int) -> Option<RelationView> {
    match rel_lookup(rv, nodes[i], nodes[j]) {
        Some(r) => Some(r),
        None => if i == j { Some(RelationView::Identical) } else { None },
    }
}

/// The starting matrix, row by row.
pub open spec fn init_matrix(nodes: Seq<Seq<char>>, rv: Seq<((Seq<char>, Seq<char>), RelationView)>) -> Seq<Option<RelationView>> {
    Seq::new(nodes.len() * nodes.len(), |p: int| init_cell(nodes, rv, p / (nodes.len() as int), p % (nodes.len() as int)))
}

/// The position of row `i`, column `j` in a matrix of `n` columns.
pub open spec fn pos(n: nat, i: nat, j: nat) -> int {
    (i * n + j) as int
}

/// One relaxation: the path from `i` through `k` to `j` (with `ik` the
/// relation from `i` to `k` at the start of row `i`) replaces the relation
/// from `i` to `j` when there is none or it ranks strictly lower.
pub open spec fn relax(m: Seq<Option<RelationView>>, n: nat, k: nat, i: nat, j: nat, ik: RelationView) -> Seq<Option<RelationView>> {
    match m[pos(n, k, j)] {
        None => m,
        Some(kj) => {
            let cand = compose_view(ik, kj);
            match m[pos(n, i, j)] {
                Some(cur) => if rank_of(cand) >= rank_of(cur) { m } else { m.update(pos(n, i, j), Some(cand)) },
                None => m.update(pos(n, i, j), Some(cand)),
            }
        },
    }
}

/// The relaxations of row `i` through `k`, for the first `j` columns.
pub open spec fn relax_row(m: Seq<Option<RelationView>>, n: nat, k: nat, i: nat, ik: RelationView, j: nat) -> Seq<Option<RelationView>>
    decreases j,
{
    if j == 0 {
        m
    } else {
        relax(relax_row(m, n, k, i, ik, (j - 1) as nat), n, k, i, (j - 1) as nat, ik)
    }
}

/// The relaxations through `k` of the first `i` rows; a row with no
/// relation to `k` is left alone.
pub open spec fn relax_rows(m: Seq<Option<RelationView>>, n: nat, k: nat, i: nat) -> Seq<Option<RelationView>>
    decreases i,
{
    if i == 0 {
        m
    } else {
        let m2 = relax_rows(m, n, k, (i - 1) as nat);
        match m2[pos(n, (i - 1) as nat, k)] {
            None => m2,
            Some(ik) => relax_row(m2, n, k, (i - 1) as nat, ik, n),
        }
    }
}

/// The relaxations through the first `k` nodes, in order.
pub open spec fn relax_all(m: Seq<Option<RelationView>>, n: nat, k: nat) -> Seq<Option<RelationView>>
    decreases k,
{
    if k == 0 {
        m
    } else {
        relax_rows(relax_all(m, n, (k - 1) as nat), n, (k - 1) as nat, n)
    }
}

/// The related pairs `(i, j)` with `i < j` among the first `j` columns of
/// row `i`, in order.
pub open spec fn row_entries(m: Seq<Option<RelationView>>, n: nat, i: nat, j: nat) -> Seq<(int, int, RelationView)>
    decreases j,
{
    if j == 0 {
        Seq::empty()
    } else {
        let p = row_entries(m, n, i, (j - 1) as nat);
        let jj = (j - 1) as nat;
        if i < jj && m[pos(n, i, jj)] is Some {
            p.push((i as int, jj as int, m[pos(n, i, jj)]->0))
        } else {
            p
        }
    }
}

/// The related pairs `(i, j)` with `i < j` of the first `i` rows, row by
/// row.
pub open spec fn all_entries(m: Seq<Option<RelationView>>, n: nat, i: nat) -> Seq<(int, int, RelationView)>
    decreases i,
{
    if i == 0 {
        Seq::empty()
    } else {
        all_entries(m, n, (i - 1) as nat) + row_entries(m, n, (i - 1) as nat, n)
    }
}

/// A matrix of relations as plain values.
pub open spec fn mat_view(v: Seq<Option<AlignmentRelation>>) -> Seq<Option<RelationView>> {
    v.map_values(|c: Option<AlignmentRelation>| match c {
        Some(r) => Some(r@),
        None => None::<RelationView>,
    })
}

proof fn lemma_index_bound(n: nat, i: nat, j: nat)
    requires
        i < n,
        j < n,
    ensures
        i * n + j < n * n,
        0 <= i * n + j,
{
    assert(i * n + j < n * n) by (nonlinear_arith)
        requires
            i < n,
            j < n,
    ;
    assert(0 <= i * n) by (nonlinear_arith);
}

/// Entries of a closure with their nodes' identifiers.
pub open spec fn named_entries(nodes: Seq<Seq<char>>, es: Seq<(int, int, RelationView)>) -> Seq<(Seq<char>, Seq<char>, RelationView)> {
    es.map_values(|e: (int, int, RelationView)| (nodes[e.0], nodes[e.1], e.2))
}

/// A closure entry with identifiers as plain values.
pub open spec fn closure_entry_view(e: (NodeId, NodeId, AlignmentRelation)) -> (Seq<char>, Seq<char>, RelationView) {
    (e.0@, e.1@, e.2@)
}

/// An indexed closure entry as plain values.
pub open spec fn indexed_entry_view(e: (usize, usize, AlignmentRelation)) -> (int, int, RelationView) {
    (e.0 as int, e.1 as int, e.2@)
}

impl ClosureGraph {
    /// The matrix of relations once every path has been relaxed.
    pub closed spec fn spec_matrix(&self) -> Seq<Option<RelationView>> {
        let n = self.spec_nodes().len();
        relax_all(init_matrix(self.spec_nodes(), rel_views(self.relations@)), n, n)
    }

    /// The related pairs of the closed matrix, by node position.
    pub closed spec fn spec_closure(&self) -> Seq<(int, int, RelationView)> {
        let n = self.spec_nodes().len();
        all_entries(self.spec_matrix(), n, n)
    }

    fn start_matrix(&self) -> (r: Vec<Option<AlignmentRelation>>)
        requires
            self.wf(),
            self.spec_nodes().len() * self.spec_nodes().len() <= usize::MAX,
        ensures
            mat_view(r@) == init_matrix(self.spec_nodes(), rel_views(self.relations@)),
    {
        let n = self.nodes.len();
        let ghost nv = self.spec_nodes();
        let ghost rv = rel_views(self.relations@);
        let total = n * n;
        let mut mat: Vec<Option<AlignmentRelation>> = Vec::new();
        let mut p: usize = 0;
        while p < total
            invariant
                self.wf(),
                n == nv.len(),
                nv == self.spec_nodes(),
                rv == rel_views(self.relations@),
                total == n * n,
                p <= total,
                mat_view(mat@) =~= Seq::new(p as nat, |q: int| init_cell(nv, rv, q / (n as int), q % (n as int))),
            decreases total - p,
        {
            assert(n > 0) by (nonlinear_arith)
                requires
                    p < total,
                    total == n * n,
            ;
            let i = p / n;
            let j = p % n;
            assert(i < n) by (nonlinear_arith)
                requires
                    p < n * n,
                    i == p / n,
                    n > 0,
            ;
            let cell = match self.find_relation(&self.nodes[i], &self.nodes[j]) {
                Some(k) => Some(self.relations[k].1.clone()),
                None => if i == j { Some(AlignmentRelation::Identical) } else { None },
            };
            let ghost before = mat_view(mat@);
            mat.push(cell);
            proof {
                assert(nv[i as int] == self.nodes@[i as int]@);
                assert(nv[j as int] == self.nodes@[j as int]@);
                assert(mat_view(mat@) =~= before.push(init_cell(nv, rv, p as int / (n as int), p as int % (n as int))));
            }
            p = p + 1;
        }
        assert(mat_view(mat@) =~= init_matrix(nv, rv));
        mat
    }
}

/// Relaxes row `i` of `mat` through `k`.
fn relax_row_exec(mat: &mut Vec<Option<AlignmentRelation>>, n: usize, k: usize, i: usize, ik: &AlignmentRelation)
    requires
        old(mat)@.len() == n * n,
        n * n <= usize::MAX,
        k < n,
        i < n,
    ensures
        final(mat)@.len() == n * n,
        mat_view(final(mat)@) == relax_row(mat_view(old(mat)@), n as nat, k as nat, i as nat, ik@, n as nat),
{
    let ghost m0 = mat_view(mat@);
    let mut j: usize = 0;
    while j < n
        invariant
            mat@.len() == n * n,
            n * n <= usize::MAX,
            k < n,
            i < n,
            j <= n,
            m0 == mat_view(old(mat)@),
            mat_view(mat@) == relax_row(m0, n as nat, k as nat, i as nat, ik@, j as nat),
        decreases n - j,
    {
        proof {
            lemma_index_bound(n as nat, k as nat, j as nat);
            lemma_index_bound(n as nat, i as nat, j as nat);
        }
        let kj_pos = k * n + j;
        let ij_pos = i * n + j;
        let ghost before = mat_view(mat@);
        let cand: Option<AlignmentRelation> = match &mat[kj_pos] {
            Some(kj) => Some(compose(ik, kj)),
            None => None,
        };
        match cand {
            Some(c) => {
                let replace = match &mat[ij_pos] {
                    Some(cur) => rank(&c) < rank(cur),
                    None => true,
                };
                if replace {
                    let ghost cv = c@;
                    mat.set(ij_pos, Some(c));
                    assert(mat_view(mat@) =~= before.update(ij_pos as int, Some(cv)));
                }
            },
            None => {},
        }
        j = j + 1;
    }
}

impl ClosureGraph {
    fn closed_matrix(&self) -> (r: Vec<Option<AlignmentRelation>>)
        requires
            self.wf(),
            self.spec_nodes().len() * self.spec_nodes().len() <= usize::MAX,
        ensures
            r@.len() == self.spec_nodes().len() * self.spec_nodes().len(),
            mat_view(r@) == self.spec_matrix(),
    {
        let n = self.nodes.len();
        let ghost m0 = init_matrix(self.spec_nodes(), rel_views(self.relations@));
        let mut mat = self.start_matrix();
        assert(mat@.len() == n * n) by {
            assert(mat_view(mat@).len() == mat@.len());
        }
        let mut k: usize = 0;
        while k < n
            invariant
                n == self.spec_nodes().len(),
                n * n <= usize::MAX,
                mat@.len() == n * n,
                k <= n,
                m0 == init_matrix(self.spec_nodes(), rel_views(self.relations@)),
                mat_view(mat@) == relax_all(m0, n as nat, k as nat),
            decreases n - k,
        {
            let ghost mk = mat_view(mat@);
            let mut i: usize = 0;
            while i < n
                invariant
                    n * n <= usize::MAX,
                    mat@.len() == n * n,
                    k < n,
                    i <= n,
                    mat_view(mat@) == relax_rows(mk, n as nat, k as nat, i as nat),
                decreases n - i,
            {
                proof { lemma_index_bound(n as nat, i as nat, k as nat); }
                let ik_pos = i * n + k;
                let ik: Option<AlignmentRelation> = match &mat[ik_pos] {
                    Some(r) => Some(r.clone()),
                    None => None,
                };
                match ik {
                    Some(r) => {
                        relax_row_exec(&mut mat, n, k, i, &r);
                    },
                    None => {},
                }
                i = i + 1;
            }
            k = k + 1;
        }
        mat
    }

    fn closure_indexed(&self) -> (r: Vec<(usize, usize, AlignmentRelation)>)
        requires
            self.wf(),
            self.spec_nodes().len() * self.spec_nodes().len() <= usize::MAX,
        ensures
            r@.map_values(|e: (usize, usize, AlignmentRelation)| indexed_entry_view(e)) == self.spec_closure(),
            forall|q: int| 0 <= q < r@.len() ==> (#[trigger] r@[q]).0 < r@[q].1 < self.spec_nodes().len(),
    {
        let n = self.nodes.len();
        let mat = self.closed_matrix();
        let ghost m = mat_view(mat@);
        let mut out: Vec<(usize, usize, AlignmentRelation)> = Vec::new();
        let mut i: usize = 0;
        while i < n
            invariant
                n == self.spec_nodes().len(),
                n * n <= usize::MAX,
                mat@.len() == n * n,
                m == mat_view(mat@),
                i <= n,
                out@.map_values(|e: (usize, usize, AlignmentRelation)| indexed_entry_view(e)) == all_entries(m, n as nat, i as nat),
                forall|q: int| 0 <= q < out@.len() ==> (#[trigger] out@[q]).0 < out@[q].1 < n,
            decreases n - i,
        {
            let ghost base = out@.map_values(|e: (usize, usize, AlignmentRelation)| indexed_entry_view(e));
            let ghost start_len = out@.len();
            let mut j: usize = 0;
            while j < n
                invariant
                    n * n <= usize::MAX,
                    mat@.len() == n * n,
                    m == mat_view(mat@),
                    i < n,
                    j <= n,
                    start_len <= out@.len(),
                    base == out@.take(start_len as int).map_values(|e: (usize, usize, AlignmentRelation)| indexed_entry_view(e)),
                    out@.map_values(|e: (usize, usize, AlignmentRelation)| indexed_entry_view(e)) == base + row_entries(m, n as nat, i as nat, j as nat),
                    forall|q: int| 0 <= q < out@.len() ==> (#[trigger] out@[q]).0 < out@[q].1 < n,
                decreases n - j,
            {
                proof { lemma_index_bound(n as nat, i as nat, j as nat); }
                let p = i * n + j;
                if i < j {
                    match &mat[p] {
                        Some(r) => {
                            let ghost prev = out@.map_values(|e: (usize, usize, AlignmentRelation)| indexed_entry_view(e));
                            out.push((i, j, r.clone()));
                            assert(out@.map_values(|e: (usize, usize, AlignmentRelation)| indexed_entry_view(e))
                                =~= prev.push((i as int, j as int, m[p as int]->0)));
                            assert(out@.take(start_len as int) =~= out@.drop_last().take(start_len as int));
                        },
                        None => {},
                    }
                }
                j = j + 1;
            }
            proof {
                assert(all_entries(m, n as nat, (i + 1) as nat) == all_entries(m, n as nat, i as nat) + row_entries(m, n as nat, i as nat, n as nat));
            }
            i = i + 1;
        }
        out
    }

    /// Every pair of distinct nodes related once every path through the
    /// graph has been followed: the relations of the closure of the recorded
    /// ones, each path's relation composed step by step and a stronger
    /// relation kept over a weaker one, listed for each node with the nodes
    /// after it, in node order.
    pub fn compute_closure(&self) -> (r: Vec<(NodeId, NodeId, AlignmentRelation)>)
        requires
            self.wf(),
            self.spec_nodes().len() * self.spec_nodes().len() <= usize::MAX,
        ensures
            r@.map_values(|e: (NodeId, NodeId, AlignmentRelation)| closure_entry_view(e)) == named_entries(self.spec_nodes(), self.spec_closure()),
    {
        let es = self.closure_indexed();
        let ghost ev = es@.map_values(|e: (usize, usize, AlignmentRelation)| indexed_entry_view(e));
        let ghost nv = self.spec_nodes();
        let mut out: Vec<(NodeId, NodeId, AlignmentRelation)> = Vec::new();
        let mut q: usize = 0;
        while q < es.len()
            invariant
                q <= es@.len(),
                nv == self.spec_nodes(),
                nv.len() == self.nodes@.len(),
                ev == es@.map_values(|e: (usize, usize, AlignmentRelation)| indexed_entry_view(e)),
                forall|t: int| 0 <= t < es@.len() ==> (#[trigger] es@[t]).0 < es@[t].1 < nv.len(),
                out@.map_values(|e: (NodeId, NodeId, AlignmentRelation)| closure_entry_view(e)) == named_entries(nv, ev.take(q as int)),
            decreases es@.len() - q,
        {
            let e = &es[q];
            let ghost prev = out@.map_values(|e: (NodeId, NodeId, AlignmentRelation)| closure_entry_view(e));
            out.push((self.nodes[e.0].clone(), self.nodes[e.1].clone(), e.2.clone()));
            proof {
                assert(ev.take(q + 1) =~= ev.take(q as int).push(ev[q as int]));
                assert(named_entries(nv, ev.take(q + 1)) =~= named_entries(nv, ev.take(q as int)).push((nv[es@[q as int].0 as int], nv[es@[q as int].1 as int], es@[q as int].2@)));
                assert(out@.map_values(|e: (NodeId, NodeId, AlignmentRelation)| closure_entry_view(e))
                    =~= prev.push((nv[es@[q as int].0 as int], nv[es@[q as int].1 as int], es@[q as int].2@)));
            }
            q = q + 1;
        }
        assert(ev.take(es@.len() as int) =~= ev);
        out
    }
}

/// The node joined to `cur` by a closure entry, if the entry touches it.
pub open spec fn other_end(x: (int, int, RelationView), cur: int) -> int {
    if x.0 == cur { x.1 } else if x.1 == cur { x.0 } else { -1 }
}

/// Following the first `e` closure entries from `cur`: an entry joining
/// `cur` to an unvisited node by an identical or fast-forward relation
/// visits that node and adds it to the cluster.
pub open spec fn scan_from(es: Seq<(int, int, RelationView)>, cur: int, vis: Seq<bool>, cl: Seq<int>, e: nat) -> (Seq<bool>, Seq<int>)
    decreases e,
{
    if e == 0 {
        (vis, cl)
    } else {
        let (v, c) = scan_from(es, cur, vis, cl, (e - 1) as nat);
        let x = es[e - 1];
        let nb = other_end(x, cur);
        if nb >= 0 && !v[nb] && rank_of(x.2) <= 1 {
            (v.update(nb, true), c.push(nb))
        } else {
            (v, c)
        }
    }
}

/// Breadth-first growth of a cluster: the node at position `h` is taken
/// next, and its neighbors join the end of the cluster, until every member
/// has been taken (or `fuel` steps have been made).
pub open spec fn grow(es: Seq<(int, int, RelationView)>, vis: Seq<bool>, cl: Seq<int>, h: nat, fuel: nat) -> (Seq<bool>, Seq<int>)
    decreases fuel,
{
    if fuel == 0 || h >= cl.len() {
        (vis, cl)
    } else {
        let (v2, c2) = scan_from(es, cl[h as int], vis, cl, es.len());
        grow(es, v2, c2, h + 1, (fuel - 1) as nat)
    }
}

/// The clusters found from the first `upto` nodes, in node order: each
/// unvisited node grows a cluster; a cluster of one node joins the previous
/// cluster, unless it is the first.
pub open spec fn clusters_upto(es: Seq<(int, int, RelationView)>, n: nat, upto: nat) -> (Seq<bool>, Seq<Seq<int>>)
    decreases upto,
{
    if upto == 0 {
        (Seq::new(n, |i: int| false), Seq::empty())
    } else {
        let (vis, cls) = clusters_upto(es, n, (upto - 1) as nat);
        let node = upto - 1;
        if vis[node] {
            (vis, cls)
        } else {
            let (v2, cl) = grow(es, vis.update(node, true), seq![node], 0, n);
            if cl.len() > 1 || cls.len() == 0 {
                (v2, cls.push(cl))
            } else {
                (v2, cls.update(cls.len() - 1, cls.last() + cl))
            }
        }
    }
}

/// The pairs of incompatible nodes of the closure, in order.
pub open spec fn incompatible_pairs_of(nodes: Seq<Seq<char>>, es: Seq<(int, int, RelationView)>) -> Seq<(Seq<char>, Seq<char>)>
    decreases es.len(),
{
    if es.len() == 0 {
        Seq::empty()
    } else {
        let p = incompatible_pairs_of(nodes, es.drop_last());
        let x = es.last();
        if rank_of(x.2) == 3 { p.push((nodes[x.0], nodes[x.1])) } else { p }
    }
}

/// The fork epochs of the closure, in order.
pub open spec fn fork_epochs_of(es: Seq<(int, int, RelationView)>) -> Seq<EpochId>
    decreases es.len(),
{
    if es.len() == 0 {
        Seq::empty()
    } else {
        let p = fork_epochs_of(es.drop_last());
        match es.last().2 {
            RelationView::Forked(e, _, _) => p.push(e),
            _ => p,
        }
    }
}

/// A federation state with identifiers and text as plain values.
pub enum StateView {
    Stable,
    Divergent(Seq<EpochId>),
    Partitioned(Seq<Seq<Seq<char>>>, Seq<(Seq<char>, Seq<char>, EpochId)>),
    Collapsed(Seq<char>, Seq<(Seq<char>, Seq<char>)>),
}

pub open spec fn cluster_views(cs: Seq<crate::vfp::Cluster>) -> Seq<Seq<Seq<char>>> {
    cs.map_values(|c: crate::vfp::Cluster| node_views(c.0@))
}

pub open spec fn pair_views(ps: Seq<(NodeId, NodeId)>) -> Seq<(Seq<char>, Seq<char>)> {
    ps.map_values(|p: (NodeId, NodeId)| (p.0@, p.1@))
}

pub open spec fn fork_views(ps: Seq<(NodeId, NodeId, EpochId)>) -> Seq<(Seq<char>, Seq<char>, EpochId)> {
    ps.map_values(|p: (NodeId, NodeId, EpochId)| (p.0@, p.1@, p.2))
}

pub open spec fn state_view(s: crate::vfp::FederationState) -> StateView {
    match s {
        crate::vfp::FederationState::Stable => StateView::Stable,
        crate::vfp::FederationState::Divergent { fork_epochs } => StateView::Divergent(fork_epochs@),
        crate::vfp::FederationState::Partitioned { clusters, cross_cluster_forks } =>
            StateView::Partitioned(cluster_views(clusters@), fork_views(cross_cluster_forks@)),
        crate::vfp::FederationState::Collapsed { reason, incompatible_pairs } =>
            StateView::Collapsed(reason@, pair_views(incompatible_pairs@)),
    }
}

/// Cluster members by node identifier.
pub open spec fn named_clusters(nodes: Seq<Seq<char>>, cls: Seq<Seq<int>>) -> Seq<Seq<Seq<char>>> {
    cls.map_values(|c: Seq<int>| c.map_values(|i: int| nodes[i]))
}

/// The reason a collapsed federation gives.
pub open spec fn collapse_reason(count: nat) -> Seq<char> {
    crate::text::decimal(count) + " incompatible pair(s) detected"@
}

impl ClosureGraph {
    /// The fork between `a` and `b` recorded in either order, if that is
    /// what relates them.
    pub open spec fn fork_between(&self, a: Seq<char>, b: Seq<char>) -> Option<EpochId> {
        match self.spec_get(a, b) {
            Some(RelationView::Forked(e, _, _)) => Some(e),
            _ => None,
        }
    }

    /// Cross-cluster forks between node `a` of one cluster and the first
    /// `bi` nodes of cluster `other`.
    pub open spec fn forks_with(&self, a: Seq<char>, other: Seq<Seq<char>>, bi: nat) -> Seq<(Seq<char>, Seq<char>, EpochId)>
        decreases bi,
    {
        if bi == 0 {
            Seq::empty()
        } else {
            let p = self.forks_with(a, other, (bi - 1) as nat);
            match self.fork_between(a, other[bi - 1]) {
                Some(e) => p.push((a, other[bi - 1], e)),
                None => p,
            }
        }
    }

    /// Cross-cluster forks from the first `ai` nodes of `one` to `other`.
    pub open spec fn forks_across(&self, one: Seq<Seq<char>>, other: Seq<Seq<char>>, ai: nat) -> Seq<(Seq<char>, Seq<char>, EpochId)>
        decreases ai,
    {
        if ai == 0 {
            Seq::empty()
        } else {
            self.forks_across(one, other, (ai - 1) as nat) + self.forks_with(one[ai - 1], other, other.len())
        }
    }

    /// Cross-cluster forks from cluster `ci` to the clusters after it among
    /// the first `cj`.
    pub open spec fn forks_from(&self, cls: Seq<Seq<Seq<char>>>, ci: nat, cj: nat) -> Seq<(Seq<char>, Seq<char>, EpochId)>
        decreases cj,
    {
        if cj == 0 {
            Seq::empty()
        } else {
            let p = self.forks_from(cls, ci, (cj - 1) as nat);
            if ci < cj - 1 { p + self.forks_across(cls[ci as int], cls[cj - 1], cls[ci as int].len()) } else { p }
        }
    }

    /// Cross-cluster forks of every pair of clusters among the first `ci`
    /// clusters and those after them.
    pub open spec fn cross_forks(&self, cls: Seq<Seq<Seq<char>>>, ci: nat) -> Seq<(Seq<char>, Seq<char>, EpochId)>
        decreases ci,
    {
        if ci == 0 {
            Seq::empty()
        } else {
            self.cross_forks(cls, (ci - 1) as nat) + self.forks_from(cls, (ci - 1) as nat, cls.len())
        }
    }

    /// The state of the federation: stable with at most one node; collapsed
    /// when the closure holds incompatible pairs; stable when it holds no
    /// fork; partitioned when the nodes fall into several clusters of
    /// identical or fast-forward relations (with the forks recorded across
    /// them); divergent otherwise (with the closure's fork epochs).
    pub open spec fn spec_classify(&self) -> StateView {
        let n = self.spec_nodes().len();
        let nodes = self.spec_nodes();
        let es = self.spec_closure();
        if n <= 1 {
            StateView::Stable
        } else if incompatible_pairs_of(nodes, es).len() > 0 {
            StateView::Collapsed(collapse_reason(incompatible_pairs_of(nodes, es).len()), incompatible_pairs_of(nodes, es))
        } else if fork_epochs_of(es).len() == 0 {
            StateView::Stable
        } else {
            let cls = named_clusters(nodes, clusters_upto(es, n, n).1);
            if cls.len() > 1 {
                StateView::Partitioned(cls, self.cross_forks(cls, cls.len()))
            } else {
                StateView::Divergent(fork_epochs_of(es))
            }
        }
    }
}

/// Positions as integers.
pub open spec fn idx_view(v: Seq<usize>) -> Seq<int> {
    v.map_values(|x: usize| x as int)
}

/// The cluster is made of distinct visited positions below `n`.
pub open spec fn cluster_ok(vis: Seq<bool>, cl: Seq<int>, n: nat) -> bool {
    &&& vis.len() == n
    &&& cl.no_duplicates()
    &&& forall|t: int| 0 <= t < cl.len() ==> 0 <= #[trigger] cl[t] < n && vis[cl[t]]
}

/// The closure entries join positions below `n`.
pub open spec fn entries_ok(es: Seq<(int, int, RelationView)>, n: nat) -> bool {
    forall|q: int| 0 <= q < es.len() ==> 0 <= (#[trigger] es[q]).0 < n && 0 <= es[q].1 < n
}

proof fn lemma_cluster_bound(vis: Seq<bool>, cl: Seq<int>, n: nat)
    requires
        cluster_ok(vis, cl, n),
    ensures
        cl.len() <= n,
{
    cl.unique_seq_to_set();
    vstd::set_lib::lemma_int_range(0, n as int);
    assert(cl.to_set().subset_of(vstd::set_lib::set_int_range(0, n as int))) by {
        assert forall|x: int| cl.to_set().contains(x) implies vstd::set_lib::set_int_range(0, n as int).contains(x) by {
            let t = choose|t: int| 0 <= t < cl.len() && cl[t] == x;
        }
    }
    vstd::set_lib::lemma_len_subset(cl.to_set(), vstd::set_lib::set_int_range(0, n as int));
}

/// Follows every closure entry from `cur`.
fn scan_exec(es: &Vec<(usize, usize, AlignmentRelation)>, cur: usize, vis: &mut Vec<bool>, cl: &mut Vec<usize>, Ghost(n): Ghost<nat>)
    requires
        entries_ok(es@.map_values(|e: (usize, usize, AlignmentRelation)| indexed_entry_view(e)), n),
        cluster_ok(old(vis)@, idx_view(old(cl)@), n),
    ensures
        cluster_ok(final(vis)@, idx_view(final(cl)@), n),
        final(cl)@.len() >= old(cl)@.len(),
        (final(vis)@, idx_view(final(cl)@)) == scan_from(es@.map_values(|e: (usize, usize, AlignmentRelation)| indexed_entry_view(e)), cur as int, old(vis)@, idx_view(old(cl)@), es@.len()),
{
    let ghost ev = es@.map_values(|e: (usize, usize, AlignmentRelation)| indexed_entry_view(e));
    let mut q: usize = 0;
    while q < es.len()
        invariant
            ev == es@.map_values(|e: (usize, usize, AlignmentRelation)| indexed_entry_view(e)),
            entries_ok(ev, n),
            q <= es@.len(),
            cluster_ok(vis@, idx_view(cl@), n),
            cl@.len() >= old(cl)@.len(),
            (vis@, idx_view(cl@)) == scan_from(ev, cur as int, old(vis)@, idx_view(old(cl)@), q as nat),
        decreases es@.len() - q,
    {
        let a = es[q].0;
        let b = es[q].1;
        assert(ev[q as int] == indexed_entry_view(es@[q as int]));
        let nb: Option<usize> = if a == cur { Some(b) } else if b == cur { Some(a) } else { None };
        match nb {
            Some(x) => {
                let weak = rank(&es[q].2) <= 1;
                if !vis[x] && weak {
                    let ghost c0 = idx_view(cl@);
                    let ghost v0 = vis@;
                    vis.set(x, true);
                    cl.push(x);
                    proof {
                        assert(idx_view(cl@) =~= c0.push(x as int));
                        assert forall|t: int| 0 <= t < idx_view(cl@).len() implies 0 <= #[trigger] idx_view(cl@)[t] < n && vis@[idx_view(cl@)[t]] by {
                            if t < c0.len() {
                                assert(idx_view(cl@)[t] == c0[t]);
                            }
                        }
                        assert(idx_view(cl@).no_duplicates()) by {
                            assert forall|i: int, j: int| 0 <= i < idx_view(cl@).len() && 0 <= j < idx_view(cl@).len() && i != j
                                implies idx_view(cl@)[i] != idx_view(cl@)[j] by {
                                if i < c0.len() && j < c0.len() {
                                    assert(c0[i] != c0[j]);
                                } else if i < c0.len() {
                                    assert(v0[c0[i]]);
                                } else {
                                    assert(v0[c0[j]]);
                                }
                            }
                        }
                    }
                }
            },
            None => {},
        }
        q = q + 1;
    }
}

/// Grows the cluster of `start`, already visited.
fn grow_exec(es: &Vec<(usize, usize, AlignmentRelation)>, vis: &mut Vec<bool>, start: usize, Ghost(n): Ghost<nat>) -> (cl: Vec<usize>)
    requires
        entries_ok(es@.map_values(|e: (usize, usize, AlignmentRelation)| indexed_entry_view(e)), n),
        old(vis)@.len() == n,
        start < n,
        old(vis)@[start as int],
    ensures
        final(vis)@.len() == n,
        cluster_ok(final(vis)@, idx_view(cl@), n),
        (final(vis)@, idx_view(cl@)) == grow(es@.map_values(|e: (usize, usize, AlignmentRelation)| indexed_entry_view(e)), old(vis)@, seq![start as int], 0, n),
{
    let ghost ev = es@.map_values(|e: (usize, usize, AlignmentRelation)| indexed_entry_view(e));
    let ghost target = grow(ev, vis@, seq![start as int], 0, n);
    let mut cl: Vec<usize> = Vec::new();
    cl.push(start);
    assert(idx_view(cl@) =~= seq![start as int]);
    assert(idx_view(cl@).no_duplicates());
    let mut h: usize = 0;
    while h < cl.len()
        invariant
            ev == es@.map_values(|e: (usize, usize, AlignmentRelation)| indexed_entry_view(e)),
            entries_ok(ev, n),
            cluster_ok(vis@, idx_view(cl@), n),
            h <= cl@.len(),
            grow(ev, vis@, idx_view(cl@), h as nat, (n - h) as nat) == target,
        decreases n - h,
    {
        proof { lemma_cluster_bound(vis@, idx_view(cl@), n); }
        let cur = cl[h];
        assert(idx_view(cl@)[h as int] == cur as int);
        scan_exec(es, cur, vis, &mut cl, Ghost(n));
        h = h + 1;
    }
    cl
}

/// Every member of every cluster is a position below `n`.
pub open spec fn clusters_below(cs: Seq<Seq<int>>, n: nat) -> bool {
    forall|c: int, t: int| 0 <= c < cs.len() && 0 <= t < cs[c].len() ==> 0 <= #[trigger] cs[c][t] < n
}

/// Node positions grouped into clusters.
pub open spec fn clusters_view(v: Seq<Vec<usize>>) -> Seq<Seq<int>> {
    v.map_values(|c: Vec<usize>| idx_view(c@))
}

fn find_clusters(es: &Vec<(usize, usize, AlignmentRelation)>, n: usize) -> (r: Vec<Vec<usize>>)
    requires
        entries_ok(es@.map_values(|e: (usize, usize, AlignmentRelation)| indexed_entry_view(e)), n as nat),
    ensures
        clusters_view(r@) == clusters_upto(es@.map_values(|e: (usize, usize, AlignmentRelation)| indexed_entry_view(e)), n as nat, n as nat).1,
        clusters_below(clusters_view(r@), n as nat),
{
    let ghost ev = es@.map_values(|e: (usize, usize, AlignmentRelation)| indexed_entry_view(e));
    let mut vis: Vec<bool> = Vec::new();
    let mut z: usize = 0;
    while z < n
        invariant
            z <= n,
            vis@ == Seq::new(z as nat, |i: int| false),
        decreases n - z,
    {
        vis.push(false);
        assert(vis@ =~= Seq::new((z + 1) as nat, |i: int| false));
        z = z + 1;
    }
    let mut clusters: Vec<Vec<usize>> = Vec::new();
    assert(clusters_view(clusters@) =~= Seq::<Seq<int>>::empty());
    let mut node: usize = 0;
    while node < n
        invariant
            ev == es@.map_values(|e: (usize, usize, AlignmentRelation)| indexed_entry_view(e)),
            entries_ok(ev, n as nat),
            node <= n,
            vis@.len() == n,
            (vis@, clusters_view(clusters@)) == clusters_upto(ev, n as nat, node as nat),
            clusters_below(clusters_view(clusters@), n as nat),
        decreases n - node,
    {
        if !vis[node] {
            let ghost v0 = vis@;
            let ghost cs0 = clusters_view(clusters@);
            vis.set(node, true);
            let cl = grow_exec(es, &mut vis, node, Ghost(n as nat));
            let ghost gv = idx_view(cl@);
            proof {
                let (v2, c2) = grow(ev, v0.update(node as int, true), seq![node as int], 0, n as nat);
                assert(gv == c2);
            }
            assert forall|t: int| 0 <= t < gv.len() implies 0 <= #[trigger] gv[t] < n by {}
            if cl.len() > 1 || clusters.len() == 0 {
                clusters.push(cl);
                assert(clusters_view(clusters@) =~= cs0.push(gv));
                assert forall|c: int, t: int| 0 <= c < clusters_view(clusters@).len() && 0 <= t < clusters_view(clusters@)[c].len()
                    implies 0 <= #[trigger] clusters_view(clusters@)[c][t] < n by {
                    if c < cs0.len() {
                        assert(clusters_view(clusters@)[c] == cs0[c]);
                    }
                }
            } else {
                let mut last = clusters.pop().unwrap();
                let ghost lv = idx_view(last@);
                let mut cl2 = cl;
                last.append(&mut cl2);
                clusters.push(last);
                proof {
                    assert(idx_view(last@) =~= lv + gv);
                    assert(cs0.last() == lv);
                    assert(clusters_view(clusters@) =~= cs0.update(cs0.len() - 1, cs0.last() + gv));
                    let cv = clusters_view(clusters@);
                    assert forall|c: int, t: int| 0 <= c < cv.len() && 0 <= t < cv[c].len()
                        implies 0 <= #[trigger] cv[c][t] < n by {
                        if c < cs0.len() - 1 {
                            assert(cv[c] == cs0[c]);
                        } else {
                            assert(cv[c] == lv + gv);
                            if t < lv.len() {
                                assert(cv[c][t] == cs0[c][t]);
                            } else {
                                assert(cv[c][t] == gv[t - lv.len()]);
                            }
                        }
                    }
                }
            }
        }
        node = node + 1;
    }
    clusters
}

impl ClosureGraph {
    fn forks_with_exec(&self, a: &NodeId, other: &Vec<NodeId>) -> (r: Vec<(NodeId, NodeId, EpochId)>)
        requires
            self.wf(),
        ensures
            fork_views(r@) == self.forks_with(a@, node_views(other@), other@.len()),
    {
        let ghost ov = node_views(other@);
        let mut out: Vec<(NodeId, NodeId, EpochId)> = Vec::new();
        let mut b: usize = 0;
        while b < other.len()
            invariant
                self.wf(),
                ov == node_views(other@),
                b <= other@.len(),
                fork_views(out@) == self.forks_with(a@, ov, b as nat),
            decreases other@.len() - b,
        {
            let ghost prev = fork_views(out@);
            assert(ov[b as int] == other@[b as int]@);
            match self.get_relation(a, &other[b]) {
                Some(AlignmentRelation::Forked { fork_epoch, .. }) => {
                    out.push((a.clone(), other[b].clone(), *fork_epoch));
                    assert(fork_views(out@) =~= prev.push((a@, ov[b as int], *fork_epoch)));
                },
                _ => {},
            }
            b = b + 1;
        }
        out
    }

    fn forks_across_exec(&self, one: &Vec<NodeId>, other: &Vec<NodeId>) -> (r: Vec<(NodeId, NodeId, EpochId)>)
        requires
            self.wf(),
        ensures
            fork_views(r@) == self.forks_across(node_views(one@), node_views(other@), one@.len()),
    {
        let ghost nv = node_views(one@);
        let mut out: Vec<(NodeId, NodeId, EpochId)> = Vec::new();
        let mut a: usize = 0;
        while a < one.len()
            invariant
                self.wf(),
                nv == node_views(one@),
                a <= one@.len(),
                fork_views(out@) == self.forks_across(nv, node_views(other@), a as nat),
            decreases one@.len() - a,
        {
            let ghost prev = fork_views(out@);
            let mut part = self.forks_with_exec(&one[a], other);
            let ghost pv = fork_views(part@);
            out.append(&mut part);
            assert(nv[a as int] == one@[a as int]@);
            assert(fork_views(out@) =~= prev + pv);
            a = a + 1;
        }
        out
    }

    fn forks_from_exec(&self, cls: &Vec<crate::vfp::Cluster>, ci: usize) -> (r: Vec<(NodeId, NodeId, EpochId)>)
        requires
            self.wf(),
            ci < cls@.len(),
        ensures
            fork_views(r@) == self.forks_from(cluster_views(cls@), ci as nat, cls@.len()),
    {
        let ghost cv = cluster_views(cls@);
        let mut out: Vec<(NodeId, NodeId, EpochId)> = Vec::new();
        let mut cj: usize = 0;
        while cj < cls.len()
            invariant
                self.wf(),
                ci < cls@.len(),
                cv == cluster_views(cls@),
                cj <= cls@.len(),
                fork_views(out@) == self.forks_from(cv, ci as nat, cj as nat),
            decreases cls@.len() - cj,
        {
            if ci < cj {
                let ghost prev = fork_views(out@);
                let mut part = self.forks_across_exec(&cls[ci].0, &cls[cj].0);
                let ghost pv = fork_views(part@);
                out.append(&mut part);
                assert(cv[ci as int] == node_views(cls@[ci as int].0@));
                assert(cv[cj as int] == node_views(cls@[cj as int].0@));
                assert(fork_views(out@) =~= prev + pv);
            }
            cj = cj + 1;
        }
        out
    }

    fn cross_forks_exec(&self, cls: &Vec<crate::vfp::Cluster>) -> (r: Vec<(NodeId, NodeId, EpochId)>)
        requires
            self.wf(),
        ensures
            fork_views(r@) == self.cross_forks(cluster_views(cls@), cls@.len()),
    {
        let ghost cv = cluster_views(cls@);
        let mut out: Vec<(NodeId, NodeId, EpochId)> = Vec::new();
        let mut ci: usize = 0;
        while ci < cls.len()
            invariant
                self.wf(),
                cv == cluster_views(cls@),
                ci <= cls@.len(),
                fork_views(out@) == self.cross_forks(cv, ci as nat),
            decreases cls@.len() - ci,
        {
            let ghost prev = fork_views(out@);
            let mut part = self.forks_from_exec(cls, ci);
            let ghost pv = fork_views(part@);
            out.append(&mut part);
            assert(fork_views(out@) =~= prev + pv);
            ci = ci + 1;
        }
        out
    }

    fn name_clusters(&self, cls: &Vec<Vec<usize>>) -> (r: Vec<crate::vfp::Cluster>)
        requires
            clusters_below(clusters_view(cls@), self.spec_nodes().len()),
        ensures
            cluster_views(r@) == named_clusters(self.spec_nodes(), clusters_view(cls@)),
    {
        let ghost nv = self.spec_nodes();
        let ghost cv = clusters_view(cls@);
        let mut out: Vec<crate::vfp::Cluster> = Vec::new();
        let mut c: usize = 0;
        while c < cls.len()
            invariant
                nv == self.spec_nodes(),
                nv.len() == self.nodes@.len(),
                cv == clusters_view(cls@),
                clusters_below(cv, nv.len()),
                c <= cls@.len(),
                cluster_views(out@) == named_clusters(nv, cv).take(c as int),
            decreases cls@.len() - c,
        {
            let members = &cls[c];
            let mut names: Vec<NodeId> = Vec::new();
            let mut t: usize = 0;
            while t < members.len()
                invariant
                    nv == self.spec_nodes(),
                    nv.len() == self.nodes@.len(),
                    cv == clusters_view(cls@),
                    clusters_below(cv, nv.len()),
                    c < cls@.len(),
                    members == &cls@[c as int],
                    t <= members@.len(),
                    node_views(names@) == cv[c as int].take(t as int).map_values(|i: int| nv[i]),
                decreases members@.len() - t,
            {
                assert(cv[c as int][t as int] == members@[t as int] as int);
                let ghost prev = node_views(names@);
                names.push(self.nodes[members[t]].clone());
                assert(cv[c as int].take(t + 1) =~= cv[c as int].take(t as int).push(cv[c as int][t as int]));
                assert(node_views(names@) =~= prev.push(nv[members@[t as int] as int]));
                t = t + 1;
            }
            let ghost prev = cluster_views(out@);
            assert(cv[c as int].take(members@.len() as int) =~= cv[c as int]);
            out.push(crate::vfp::Cluster(names));
            assert(cluster_views(out@) =~= prev.push(node_views(names@)));
            assert(named_clusters(nv, cv).take(c + 1) =~= named_clusters(nv, cv).take(c as int).push(named_clusters(nv, cv)[c as int]));
            c = c + 1;
        }
        assert(named_clusters(nv, cv).take(cls@.len() as int) =~= named_clusters(nv, cv));
        out
    }

    /// The state of the federation the closure implies (see
    /// `spec_classify`).
    pub fn classify(&self) -> (r: crate::vfp::FederationState)
        requires
            self.wf(),
            self.spec_nodes().len() * self.spec_nodes().len() <= usize::MAX,
        ensures
            state_view(r) == self.spec_classify(),
    {
        let n = self.nodes.len();
        if n <= 1 {
            return crate::vfp::FederationState::Stable;
        }
        let es = self.closure_indexed();
        let ghost ev = es@.map_values(|e: (usize, usize, AlignmentRelation)| indexed_entry_view(e));
        let ghost nv = self.spec_nodes();
        let mut incompatible: Vec<(NodeId, NodeId)> = Vec::new();
        let mut forks: Vec<EpochId> = Vec::new();
        let mut q: usize = 0;
        while q < es.len()
            invariant
                self.wf(),
                nv == self.spec_nodes(),
                nv.len() == self.nodes@.len(),
                ev == es@.map_values(|e: (usize, usize, AlignmentRelation)| indexed_entry_view(e)),
                forall|t: int| 0 <= t < es@.len() ==> (#[trigger] es@[t]).0 < es@[t].1 < nv.len(),
                q <= es@.len(),
                pair_views(incompatible@) == incompatible_pairs_of(nv, ev.take(q as int)),
                forks@ == fork_epochs_of(ev.take(q as int)),
            decreases es@.len() - q,
        {
            let e = &es[q];
            assert(ev.take(q + 1).drop_last() =~= ev.take(q as int));
            assert(ev.take(q + 1).last() == indexed_entry_view(es@[q as int]));
            match &e.2 {
                AlignmentRelation::Incompatible { .. } => {
                    let ghost prev = pair_views(incompatible@);
                    incompatible.push((self.nodes[e.0].clone(), self.nodes[e.1].clone()));
                    assert(pair_views(incompatible@) =~= prev.push((nv[e.0 as int], nv[e.1 as int])));
                },
                AlignmentRelation::Forked { fork_epoch, .. } => {
                    forks.push(*fork_epoch);
                },
                _ => {},
            }
            q = q + 1;
        }
        assert(ev.take(es@.len() as int) =~= ev);
        if incompatible.len() > 0 {
            let mut reason = crate::text::u64_to_decimal(incompatible.len() as u64);
            reason.append(" incompatible pair(s) detected");
            return crate::vfp::FederationState::Collapsed { reason, incompatible_pairs: incompatible };
        }
        if forks.len() == 0 {
            return crate::vfp::FederationState::Stable;
        }
        proof {
            assert forall|t: int| 0 <= t < ev.len() implies 0 <= (#[trigger] ev[t]).0 < n && 0 <= ev[t].1 < n by {
                assert(ev[t] == indexed_entry_view(es@[t]));
            }
        }
        let idx_clusters = find_clusters(&es, n);
        let clusters = self.name_clusters(&idx_clusters);
        if clusters.len() > 1 {
            let cross = self.cross_forks_exec(&clusters);
            return crate::vfp::FederationState::Partitioned { clusters, cross_cluster_forks: cross };
        }
        crate::vfp::FederationState::Divergent { fork_epochs: forks }
    }

    /// The clusters of a partitioned federation; otherwise all nodes form
    /// one cluster.
    pub fn clusters(&self) -> (r: Vec<crate::vfp::Cluster>)
        requires
            self.wf(),
            self.spec_nodes().len() * self.spec_nodes().len() <= usize::MAX,
        ensures
            cluster_views(r@) == match self.spec_classify() {
                StateView::Partitioned(cls, _) => cls,
                _ => seq![self.spec_nodes()],
            },
    {
        match self.classify() {
            crate::vfp::FederationState::Partitioned { clusters, .. } => clusters,
            _ => {
                let mut out: Vec<crate::vfp::Cluster> = Vec::new();
                out.push(crate::vfp::Cluster(crate::base::clone_node_ids(&self.nodes)));
                proof {
                    assert(cluster_views(out@) =~= seq![node_views(out@[0].0@)]);
                    assert(node_views(out@[0].0@) =~= self.spec_nodes());
                }
                out
            },
        }
    }
}

} // verus!
