//! Incremental rebuilds: edits to a source, the regions they leave dirty,
//! and a cache of canonical nodes.

use vstd::prelude::*;
use vstd::string::*;
use vstd::utf8::encode_utf8;
use crate::text::str_eq;
use crate::types::caf::{clone_hashes, same_hash, sha256_hex, CafHash, CafNode};
use crate::types::semantic::CafContext;

verus! {

/// What an edit does.
#[derive(Debug, Clone, Copy, PartialEq, Eq, Structural)]
pub enum EditKind {
    Insert,
    Delete,
    Replace,
    Move,
}

/// An edit of the bytes `byte_start..byte_end` of a source.
#[derive(Debug, Clone)]
pub struct InputEdit {
    pub byte_start: usize,
    pub byte_end: usize,
    pub kind: EditKind,
    pub old_content: Option<String>,
    pub new_content: Option<String>,
}

/// The edit touches the node spanning `node_start..node_end`: the two
/// ranges overlap.
pub open spec fn edit_affects(e: InputEdit, node_start: usize, node_end: usize) -> bool {
    !(node_end <= e.byte_start || node_start >= e.byte_end)
}

impl InputEdit {
    /// An insertion of `content` at `start`.
    pub fn insert(start: usize, content: &str) -> (r: Self)
        ensures
            r.byte_start == start,
            r.byte_end == start,
            r.kind == EditKind::Insert,
            r.old_content is None,
            r.new_content matches Some(c) && c@ == content@,
    {
        Self {
            byte_start: start,
            byte_end: start,
            kind: EditKind::Insert,
            old_content: None,
            new_content: Some(String::from_str(content)),
        }
    }

    /// A deletion of `start..end`.
    pub fn delete(start: usize, end: usize) -> (r: Self)
        ensures
            r.byte_start == start,
            r.byte_end == end,
            r.kind == EditKind::Delete,
            r.old_content is None,
            r.new_content is None,
    {
        Self { byte_start: start, byte_end: end, kind: EditKind::Delete, old_content: None, new_content: None }
    }

    /// A replacement of `start..end` by `content`.
    pub fn replace(start: usize, end: usize, content: &str) -> (r: Self)
        ensures
            r.byte_start == start,
            r.byte_end == end,
            r.kind == EditKind::Replace,
            r.old_content is None,
            r.new_content matches Some(c) && c@ == content@,
    {
        Self {
            byte_start: start,
            byte_end: end,
            kind: EditKind::Replace,
            old_content: None,
            new_content: Some(String::from_str(content)),
        }
    }

    /// Whether the edit touches the node spanning `node_start..node_end`.
    pub fn affects_range(&self, node_start: usize, node_end: usize) -> (r: bool)
        ensures
            r == edit_affects(*self, node_start, node_end),
    {
        !(node_end <= self.byte_start || node_start >= self.byte_end)
    }
}

/// Why a region is dirty.
#[derive(Debug, Clone, Copy, PartialEq, Eq, Structural)]
pub enum DirtyReason {
    DirectEdit,
    AncestorChanged,
    ScopeModified,
    CommutativityChanged,
}

impl Default for DirtyReason {
    fn default() -> (r: Self)
        ensures
            r == DirtyReason::DirectEdit,
    {
        DirtyReason::DirectEdit
    }
}

/// A byte range that must be rebuilt.
#[derive(Debug, Clone, Copy, PartialEq, Eq, Structural)]
pub struct DirtyRegion {
    pub byte_start: usize,
    pub byte_end: usize,
    pub reason: DirtyReason,
}

impl Default for DirtyRegion {
    fn default() -> (r: Self)
        ensures
            r == (DirtyRegion { byte_start: 0, byte_end: 0, reason: DirtyReason::DirectEdit }),
    {
        DirtyRegion { byte_start: 0, byte_end: 0, reason: DirtyReason::DirectEdit }
    }
}

/// The region an edit leaves dirty: its range, directly edited unless the
/// edit is a move, which changes an ancestor.
pub open spec fn region_of(e: InputEdit) -> DirtyRegion {
    DirtyRegion {
        byte_start: e.byte_start,
        byte_end: e.byte_end,
        reason: if e.kind == EditKind::Move { DirtyReason::AncestorChanged } else { DirtyReason::DirectEdit },
    }
}

/// The regions of a sequence of edits, in order.
pub open spec fn regions_of(es: Seq<InputEdit>) -> Seq<DirtyRegion>
    decreases es.len(),
{
    if es.len() == 0 { Seq::empty() } else { regions_of(es.drop_last()).push(region_of(es.last())) }
}

/// Position `p` lies in one of the regions.
pub open spec fn in_some_region(rs: Seq<DirtyRegion>, p: usize) -> bool {
    exists|k: int| 0 <= k < rs.len() && (#[trigger] rs[k]).byte_start <= p && p < rs[k].byte_end
}

/// The positions of `ps`, in order, that lie in one of the regions.
pub open spec fn positions_in_regions(ps: Seq<usize>, rs: Seq<DirtyRegion>) -> Seq<usize>
    decreases ps.len(),
{
    if ps.len() == 0 {
        Seq::empty()
    } else if in_some_region(rs, ps.last()) {
        positions_in_regions(ps.drop_last(), rs).push(ps.last())
    } else {
        positions_in_regions(ps.drop_last(), rs)
    }
}

/// Inserts a region after every region that does not start after it.
pub open spec fn insert_by_start(s: Seq<DirtyRegion>, x: DirtyRegion) -> Seq<DirtyRegion>
    decreases s.len(),
{
    if s.len() == 0 || !(x.byte_start < s.last().byte_start) {
        s.push(x)
    } else {
        insert_by_start(s.drop_last(), x).push(s.last())
    }
}

/// The regions ordered by start, regions with the same start keeping
/// their order (a stable sort).
pub open spec fn sort_by_start(v: Seq<DirtyRegion>) -> Seq<DirtyRegion>
    decreases v.len(),
{
    if v.len() == 0 { v } else { insert_by_start(sort_by_start(v.drop_last()), v.last()) }
}

proof fn lemma_insert_by_start_split(s: Seq<DirtyRegion>, x: DirtyRegion, k: int)
    requires
        0 <= k <= s.len(),
        k == 0 || !(x.byte_start < s[k - 1].byte_start),
        forall|j: int| k <= j < s.len() ==> x.byte_start < (#[trigger] s[j]).byte_start,
    ensures
        insert_by_start(s, x) == s.take(k).push(x) + s.skip(k),
    decreases s.len(),
{
    if s.len() == 0 {
        assert(s.take(k).push(x) + s.skip(k) =~= seq![x]);
    } else if k == s.len() {
        assert(s.take(k).push(x) + s.skip(k) =~= s.push(x));
    } else {
        let d = s.drop_last();
        assert forall|j: int| k <= j < d.len() implies x.byte_start < (#[trigger] d[j]).byte_start by {
            assert(d[j] == s[j]);
        }
        if k > 0 {
            assert(d[k - 1] == s[k - 1]);
        }
        assert(x.byte_start < s[s.len() - 1].byte_start);
        lemma_insert_by_start_split(d, x, k);
        assert(d.take(k) =~= s.take(k));
        assert(s.take(k).push(x) + s.skip(k) =~= (d.take(k).push(x) + d.skip(k)).push(s.last()));
    }
}

/// The state an incremental pass carries to the next one.
#[derive(Debug, Default)]
pub struct IncrementalState {
    pub previous_hash: Option<CafHash>,
    pub dirty_regions: Vec<DirtyRegion>,
    pub scope_snapshot: CafContext,
    pub node_hashes: Vec<(usize, CafHash)>,
}

/// Collects edits since the last pass and works out what to rebuild.
pub struct IncrementalCafBuilder {
    state: IncrementalState,
    edits: Vec<InputEdit>,
}

impl IncrementalCafBuilder {
    /// The edits collected, in order.
    pub closed spec fn spec_edits(&self) -> Seq<InputEdit> {
        self.edits@
    }

    /// The hash of the previous pass, if known.
    pub closed spec fn spec_previous_hash(&self) -> Option<CafHash> {
        self.state.previous_hash
    }

    /// The naming scopes carried from the previous pass.
    pub closed spec fn spec_scope_snapshot(&self) -> CafContext {
        self.state.scope_snapshot
    }

    /// The node hashes carried from the previous pass.
    pub closed spec fn spec_node_hashes(&self) -> Seq<(usize, CafHash)> {
        self.state.node_hashes@
    }

    /// A builder with no previous state and no edits: no previous hash, no
    /// node hashes, and a scope snapshot with no scope, every counter at
    /// zero and no flag set.
    pub fn new() -> (r: Self)
        ensures
            r.spec_edits() == Seq::<InputEdit>::empty(),
            r.spec_previous_hash() is None,
            r.spec_node_hashes() == Seq::<(usize, CafHash)>::empty(),
            r.spec_scope_snapshot().spec_scopes() == Seq::<Map<Seq<char>, Seq<char>>>::empty(),
            r.spec_scope_snapshot().spec_var_counter() == 0,
            r.spec_scope_snapshot().spec_func_counter() == 0,
            r.spec_scope_snapshot().spec_type_counter() == 0,
            !r.spec_scope_snapshot().spec_in_loop(),
            !r.spec_scope_snapshot().spec_in_match(),
            !r.spec_scope_snapshot().spec_in_macro(),
    {
        Self {
            state: IncrementalState {
                previous_hash: None,
                dirty_regions: Vec::new(),
                scope_snapshot: CafContext::default(),
                node_hashes: Vec::new(),
            },
            edits: Vec::new(),
        }
    }

    /// The builder carrying the hash and the scopes of a previous pass.
    pub fn with_previous_state(self, previous_hash: CafHash, scope: CafContext) -> (r: Self)
        ensures
            r.spec_edits() == self.spec_edits(),
            r.spec_previous_hash() == Some(previous_hash),
            r.spec_scope_snapshot() == scope,
            r.spec_node_hashes() == self.spec_node_hashes(),
    {
        let mut b = self;
        b.state.previous_hash = Some(previous_hash);
        b.state.scope_snapshot = scope;
        b
    }

    pub fn add_edit(&mut self, edit: InputEdit)
        ensures
            final(self).spec_edits() == old(self).spec_edits().push(edit),
            final(self).spec_previous_hash() == old(self).spec_previous_hash(),
            final(self).spec_scope_snapshot() == old(self).spec_scope_snapshot(),
            final(self).spec_node_hashes() == old(self).spec_node_hashes(),
    {
        self.edits.push(edit);
    }

    pub fn add_edits(&mut self, edits: Vec<InputEdit>)
        ensures
            final(self).spec_edits() == old(self).spec_edits() + edits@,
            final(self).spec_previous_hash() == old(self).spec_previous_hash(),
            final(self).spec_scope_snapshot() == old(self).spec_scope_snapshot(),
            final(self).spec_node_hashes() == old(self).spec_node_hashes(),
    {
        let mut edits = edits;
        self.edits.append(&mut edits);
    }

    /// The dirty region of every edit, ordered by start (edits with the
    /// same start keep their order).
    pub fn compute_dirty_regions(&self) -> (r: Vec<DirtyRegion>)
        ensures
            r@ == sort_by_start(regions_of(self.spec_edits())),
    {
        let ghost es = self.edits@;
        let mut sorted: Vec<DirtyRegion> = Vec::new();
        let mut i: usize = 0;
        while i < self.edits.len()
            invariant
                i <= es.len(),
                es == self.edits@,
                sorted@ == sort_by_start(regions_of(es.take(i as int))),
            decreases es.len() - i,
        {
            let e = &self.edits[i];
            let reason = match e.kind {
                EditKind::Move => DirtyReason::AncestorChanged,
                _ => DirtyReason::DirectEdit,
            };
            let x = DirtyRegion { byte_start: e.byte_start, byte_end: e.byte_end, reason };
            assert(es.take(i + 1).drop_last() =~= es.take(i as int));
            assert(x == region_of(es[i as int]));
            let ghost rv = regions_of(es.take(i as int));
            assert(regions_of(es.take(i + 1)) == rv.push(x));
            assert(rv.push(x).drop_last() =~= rv);
            let ghost s = sorted@;
            let mut k: usize = sorted.len();
            while k > 0 && x.byte_start < sorted[k - 1].byte_start
                invariant
                    k <= sorted@.len(),
                    s == sorted@,
                    forall|j: int| k <= j < s.len() ==> x.byte_start < (#[trigger] s[j]).byte_start,
                decreases k,
            {
                k = k - 1;
            }
            proof { lemma_insert_by_start_split(s, x, k as int); }
            sorted.insert(k, x);
            assert(sorted@ =~= s.take(k as int).push(x) + s.skip(k as int));
            i = i + 1;
        }
        assert(es.take(es.len() as int) =~= es);
        sorted
    }

    /// Whether some edit touches the node spanning `node_start..node_end`.
    pub fn is_subtree_dirty(&self, node_start: usize, node_end: usize) -> (r: bool)
        ensures
            r == exists|i: int| 0 <= i < self.spec_edits().len()
                && edit_affects(#[trigger] self.spec_edits()[i], node_start, node_end),
    {
        let mut i: usize = 0;
        while i < self.edits.len()
            invariant
                i <= self.edits@.len(),
                forall|j: int| 0 <= j < i ==> !edit_affects(#[trigger] self.edits@[j], node_start, node_end),
            decreases self.edits@.len() - i,
        {
            if self.edits[i].affects_range(node_start, node_end) {
                assert(edit_affects(self.spec_edits()[i as int], node_start, node_end));
                return true;
            }
            i = i + 1;
        }
        false
    }

    /// The dirty positions with every position an ancestor walk from them
    /// reaches: the parent of a position is the one before it, down to
    /// zero.
    pub fn propagate_dirty_up(&self, dirty_nodes: &[usize]) -> (r: std::collections::HashSet<usize>)
        ensures
            r@ == Set::new(|p: usize| exists|i: int| 0 <= i < dirty_nodes@.len() && p <= #[trigger] dirty_nodes@[i]),
    {
        broadcast use vstd::std_specs::hash::group_hash_axioms;
        let ghost target = Set::new(|p: usize| exists|i: int| 0 <= i < dirty_nodes@.len() && p <= #[trigger] dirty_nodes@[i]);
        let mut out: std::collections::HashSet<usize> = std::collections::HashSet::new();
        let mut i: usize = 0;
        while i < dirty_nodes.len()
            invariant
                i <= dirty_nodes@.len(),
                out@ == Set::new(|p: usize| exists|j: int| 0 <= j < i && p <= #[trigger] dirty_nodes@[j]),
            decreases dirty_nodes@.len() - i,
        {
            let pos = dirty_nodes[i];
            out.insert(pos);
            let mut current = pos;
            while current > 0
                invariant
                    current <= pos,
                    pos == dirty_nodes@[i as int],
                    i < dirty_nodes@.len(),
                    out@ == Set::new(|p: usize| exists|j: int| 0 <= j < i && p <= #[trigger] dirty_nodes@[j])
                        .union(Set::new(|p: usize| current <= p <= pos)),
                decreases current,
            {
                current = self.parent_offset(current);
                out.insert(current);
                assert(out@ =~= Set::new(|p: usize| exists|j: int| 0 <= j < i && p <= #[trigger] dirty_nodes@[j])
                    .union(Set::new(|p: usize| current <= p <= pos)));
            }
            assert(out@ =~= Set::new(|p: usize| exists|j: int| 0 <= j < i + 1 && p <= #[trigger] dirty_nodes@[j])) by {
                assert forall|p: usize| (exists|j: int| 0 <= j < i + 1 && p <= #[trigger] dirty_nodes@[j])
                    implies out@.contains(p) by {
                    let j = choose|j: int| 0 <= j < i + 1 && p <= #[trigger] dirty_nodes@[j];
                    if j < i {
                        assert(exists|j2: int| 0 <= j2 < i && p <= #[trigger] dirty_nodes@[j2]);
                    }
                }
            }
            i = i + 1;
        }
        out
    }

    fn parent_offset(&self, child: usize) -> (r: usize)
        ensures
            r == if child == 0 { 0 } else { (child - 1) as usize },
    {
        if child == 0 {
            return 0;
        }
        child.saturating_sub(1)
    }

    /// The positions, in order, that fall in some dirty region.
    pub fn compute_rebuild_candidates(&self, node_positions: &[usize]) -> (r: Vec<usize>)
        ensures
            r@ == positions_in_regions(node_positions@, regions_of(self.spec_edits())),
    {
        let regions = self.compute_dirty_regions();
        proof { lemma_sort_by_start_perm(regions_of(self.spec_edits())); }
        let ghost rs = regions_of(self.spec_edits());
        let mut candidates: Vec<usize> = Vec::new();
        let mut i: usize = 0;
        while i < node_positions.len()
            invariant
                i <= node_positions@.len(),
                rs == regions_of(self.spec_edits()),
                regions@.to_multiset() == rs.to_multiset(),
                candidates@ == positions_in_regions(node_positions@.take(i as int), rs),
            decreases node_positions@.len() - i,
        {
            let pos = node_positions[i];
            let mut found = false;
            let mut j: usize = 0;
            while j < regions.len() && !found
                invariant
                    j <= regions@.len(),
                    found == exists|k: int| 0 <= k < j && (#[trigger] regions@[k]).byte_start <= pos && pos < regions@[k].byte_end,
                decreases regions@.len() - j,
            {
                if pos >= regions[j].byte_start && pos < regions[j].byte_end {
                    found = true;
                }
                j = j + 1;
            }
            proof {
                lemma_same_multiset_exists(regions@, rs, pos);
                assert(node_positions@.take(i + 1).drop_last() =~= node_positions@.take(i as int));
            }
            if found {
                candidates.push(pos);
            }
            i = i + 1;
        }
        assert(node_positions@.take(node_positions@.len() as int) =~= node_positions@);
        candidates
    }

    /// Whether `new_hash` differs from the previous pass's hash; with no
    /// previous hash every hash is a change.
    pub fn has_significant_change(&self, new_hash: &CafHash) -> (r: bool)
        ensures
            r == match self.spec_previous_hash() {
                Some(old_hash) => !same_hash(old_hash, *new_hash),
                None => true,
            },
    {
        match &self.state.previous_hash {
            Some(old_hash) => !old_hash.same_as(new_hash),
            None => true,
        }
    }

    pub fn get_previous_hash(&self) -> (r: Option<&CafHash>)
        ensures
            r == match self.spec_previous_hash() {
                Some(h) => Some(&h),
                None => None::<&CafHash>,
            },
    {
        self.state.previous_hash.as_ref()
    }

    /// Records the dirty regions in the state and hands out a copy of it.
    pub fn finalize(&mut self) -> (r: IncrementalState)
        ensures
            r.dirty_regions@ == sort_by_start(regions_of(old(self).spec_edits())),
            r.previous_hash == old(self).spec_previous_hash(),
            final(self).spec_edits() == old(self).spec_edits(),
            final(self).spec_previous_hash() == old(self).spec_previous_hash(),
            final(self).spec_scope_snapshot() == old(self).spec_scope_snapshot(),
            final(self).spec_node_hashes() == old(self).spec_node_hashes(),
            r.node_hashes@ == old(self).spec_node_hashes(),
    {
        let regions = self.compute_dirty_regions();
        self.state.dirty_regions = regions;
        let previous_hash = match &self.state.previous_hash {
            Some(h) => Some(h.clone()),
            None => None,
        };
        let mut dirty_regions: Vec<DirtyRegion> = Vec::new();
        let mut i: usize = 0;
        while i < self.state.dirty_regions.len()
            invariant
                i <= self.state.dirty_regions@.len(),
                dirty_regions@ == self.state.dirty_regions@.take(i as int),
            decreases self.state.dirty_regions@.len() - i,
        {
            dirty_regions.push(self.state.dirty_regions[i]);
            assert(self.state.dirty_regions@.take(i + 1) =~= self.state.dirty_regions@.take(i as int).push(self.state.dirty_regions@[i as int]));
            i = i + 1;
        }
        assert(self.state.dirty_regions@.take(self.state.dirty_regions@.len() as int) =~= self.state.dirty_regions@);
        let mut node_hashes: Vec<(usize, CafHash)> = Vec::new();
        let mut j: usize = 0;
        while j < self.state.node_hashes.len()
            invariant
                j <= self.state.node_hashes@.len(),
                node_hashes@ == self.state.node_hashes@.take(j as int),
            decreases self.state.node_hashes@.len() - j,
        {
            let (p, h) = &self.state.node_hashes[j];
            node_hashes.push((*p, h.clone()));
            assert(self.state.node_hashes@.take(j + 1) =~= self.state.node_hashes@.take(j as int).push(self.state.node_hashes@[j as int]));
            j = j + 1;
        }
        assert(self.state.node_hashes@.take(self.state.node_hashes@.len() as int) =~= self.state.node_hashes@);
        IncrementalState {
            previous_hash,
            dirty_regions,
            scope_snapshot: self.state.scope_snapshot.clone(),
            node_hashes,
        }
    }
}

proof fn lemma_insert_by_start_multiset(s: Seq<DirtyRegion>, x: DirtyRegion)
    ensures
        insert_by_start(s, x).to_multiset() == s.to_multiset().insert(x),
    decreases s.len(),
{
    broadcast use vstd::seq_lib::group_to_multiset_ensures;
    if s.len() > 0 && x.byte_start < s.last().byte_start {
        lemma_insert_by_start_multiset(s.drop_last(), x);
        assert(s.drop_last().push(s.last()) =~= s);
        assert(insert_by_start(s, x).to_multiset() =~= s.to_multiset().insert(x));
    }
}

proof fn lemma_sort_by_start_perm(v: Seq<DirtyRegion>)
    ensures
        sort_by_start(v).to_multiset() == v.to_multiset(),
    decreases v.len(),
{
    broadcast use vstd::seq_lib::group_to_multiset_ensures;
    if v.len() > 0 {
        lemma_sort_by_start_perm(v.drop_last());
        lemma_insert_by_start_multiset(sort_by_start(v.drop_last()), v.last());
        assert(v.drop_last().push(v.last()) =~= v);
    }
}

proof fn lemma_same_multiset_exists(a: Seq<DirtyRegion>, b: Seq<DirtyRegion>, pos: usize)
    requires
        a.to_multiset() == b.to_multiset(),
    ensures
        (exists|k: int| 0 <= k < a.len() && (#[trigger] a[k]).byte_start <= pos && pos < a[k].byte_end)
            == (exists|k: int| 0 <= k < b.len() && (#[trigger] b[k]).byte_start <= pos && pos < b[k].byte_end),
{
    broadcast use vstd::seq_lib::group_to_multiset_ensures;
    if exists|k: int| 0 <= k < a.len() && (#[trigger] a[k]).byte_start <= pos && pos < a[k].byte_end {
        let k = choose|k: int| 0 <= k < a.len() && (#[trigger] a[k]).byte_start <= pos && pos < a[k].byte_end;
        assert(a.to_multiset().count(a[k]) > 0);
        assert(b.contains(a[k]));
    }
    if exists|k: int| 0 <= k < b.len() && (#[trigger] b[k]).byte_start <= pos && pos < b[k].byte_end {
        let k = choose|k: int| 0 <= k < b.len() && (#[trigger] b[k]).byte_start <= pos && pos < b[k].byte_end;
        assert(b.to_multiset().count(b[k]) > 0);
        assert(a.contains(b[k]));
    }
}


/// The node recorded under `id`: the last entry with that identifier.
pub open spec fn node_entry(v: Seq<(String, CafNode)>, id: Seq<char>) -> Option<CafNode>
    decreases v.len(),
{
    if v.len() == 0 {
        None
    } else if v.last().0@ == id {
        Some(v.last().1)
    } else {
        node_entry(v.drop_last(), id)
    }
}

/// The identifiers of the entries, in order.
pub open spec fn node_ids(v: Seq<(String, CafNode)>) -> Seq<Seq<char>> {
    v.map_values(|e: (String, CafNode)| e.0@)
}

/// No two entries share an identifier.
pub open spec fn node_keys_unique(v: Seq<(String, CafNode)>) -> bool {
    forall|i: int, j: int| 0 <= i < j < v.len() ==> (#[trigger] v[i]).0@ != (#[trigger] v[j]).0@
}

/// A hash as a key: algorithm and value.
pub open spec fn hash_key(h: CafHash) -> (Seq<char>, Seq<char>) {
    (h.algorithm@, h.value@)
}

/// The character sequences of a list of identifiers.
pub open spec fn id_views(v: Seq<String>) -> Seq<Seq<char>> {
    v.map_values(|x: String| x@)
}

/// The identifiers recorded under key `k`: the last entry with that key.
pub open spec fn hash_entry(v: Seq<(CafHash, Vec<String>)>, k: (Seq<char>, Seq<char>)) -> Option<Seq<Seq<char>>>
    decreases v.len(),
{
    if v.len() == 0 {
        None
    } else if hash_key(v.last().0) == k {
        Some(id_views(v.last().1@))
    } else {
        hash_entry(v.drop_last(), k)
    }
}

/// No two entries share a key.
pub open spec fn hash_keys_unique(v: Seq<(CafHash, Vec<String>)>) -> bool {
    forall|i: int, j: int| 0 <= i < j < v.len() ==> hash_key((#[trigger] v[i]).0) != hash_key((#[trigger] v[j]).0)
}

/// `l` without the identifiers that `drop` picks, in order.
pub open spec fn ids_without(l: Seq<Seq<char>>, drop: spec_fn(Seq<char>) -> bool) -> Seq<Seq<char>>
    decreases l.len(),
{
    if l.len() == 0 {
        l
    } else {
        let p = ids_without(l.drop_last(), drop);
        if drop(l.last()) { p } else { p.push(l.last()) }
    }
}

/// A node lies within `start..end`.
pub open spec fn in_range(n: CafNode, start: usize, end: usize) -> bool {
    n.byte_start >= start && n.byte_end <= end
}

/// The key under which a node dropped by range is looked up in the hash
/// index: the SHA-256 of its identifier, a colon and its kind.
pub open spec fn range_key(id: Seq<char>, kind: Seq<char>) -> (Seq<char>, Seq<char>) {
    ("sha256"@, sha256_hex(encode_utf8(id + ":"@ + kind)))
}

/// The identifiers of the nodes within `start..end`, each with its range
/// key, in order.
pub open spec fn range_entries(v: Seq<(String, CafNode)>, start: usize, end: usize) -> Seq<(Seq<char>, (Seq<char>, Seq<char>))>
    decreases v.len(),
{
    if v.len() == 0 {
        Seq::empty()
    } else {
        let p = range_entries(v.drop_last(), start, end);
        if in_range(v.last().1, start, end) {
            p.push((v.last().0@, range_key(v.last().0@, v.last().1.kind@)))
        } else {
            p
        }
    }
}

proof fn lemma_node_entry_at(v: Seq<(String, CafNode)>, k: int)
    requires
        node_keys_unique(v),
        0 <= k < v.len(),
    ensures
        node_entry(v, v[k].0@) == Some(v[k].1),
    decreases v.len(),
{
    if k < v.len() - 1 {
        assert(v[k].0@ != v[v.len() - 1].0@);
        assert(v.drop_last()[k] == v[k]);
        lemma_node_entry_at(v.drop_last(), k);
    }
}

proof fn lemma_node_entry_none(v: Seq<(String, CafNode)>, s: Seq<char>)
    requires
        forall|i: int| 0 <= i < v.len() ==> (#[trigger] v[i]).0@ != s,
    ensures
        node_entry(v, s) is None,
    decreases v.len(),
{
    if v.len() > 0 {
        assert(v[v.len() - 1].0@ != s);
        assert forall|i: int| 0 <= i < v.drop_last().len() implies (#[trigger] v.drop_last()[i]).0@ != s by {
            assert(v.drop_last()[i] == v[i]);
        }
        lemma_node_entry_none(v.drop_last(), s);
    }
}

/// The node under `s` is the one at the position holding `s`, or none.
proof fn lemma_node_entry(v: Seq<(String, CafNode)>, s: Seq<char>)
    requires
        node_keys_unique(v),
    ensures
        (exists|k: int| 0 <= k < v.len() && (#[trigger] v[k]).0@ == s) || node_entry(v, s) is None,
        forall|k: int| 0 <= k < v.len() && (#[trigger] v[k]).0@ == s ==> node_entry(v, s) == Some(v[k].1),
{
    assert forall|k: int| 0 <= k < v.len() && (#[trigger] v[k]).0@ == s implies node_entry(v, s) == Some(v[k].1) by {
        lemma_node_entry_at(v, k);
    }
    if !(exists|k: int| 0 <= k < v.len() && (#[trigger] v[k]).0@ == s) {
        lemma_node_entry_none(v, s);
    }
}

proof fn lemma_hash_entry_at(v: Seq<(CafHash, Vec<String>)>, k: int)
    requires
        hash_keys_unique(v),
        0 <= k < v.len(),
    ensures
        hash_entry(v, hash_key(v[k].0)) == Some(id_views(v[k].1@)),
    decreases v.len(),
{
    if k < v.len() - 1 {
        assert(hash_key(v[k].0) != hash_key(v[v.len() - 1].0));
        assert(v.drop_last()[k] == v[k]);
        lemma_hash_entry_at(v.drop_last(), k);
    }
}

proof fn lemma_hash_entry_none(v: Seq<(CafHash, Vec<String>)>, q: (Seq<char>, Seq<char>))
    requires
        forall|i: int| 0 <= i < v.len() ==> hash_key((#[trigger] v[i]).0) != q,
    ensures
        hash_entry(v, q) is None,
    decreases v.len(),
{
    if v.len() > 0 {
        assert(hash_key(v[v.len() - 1].0) != q);
        assert forall|i: int| 0 <= i < v.drop_last().len() implies hash_key((#[trigger] v.drop_last()[i]).0) != q by {
            assert(v.drop_last()[i] == v[i]);
        }
        lemma_hash_entry_none(v.drop_last(), q);
    }
}

/// The identifiers under `q` are those at the position holding `q`, or none.
proof fn lemma_hash_entry(v: Seq<(CafHash, Vec<String>)>, q: (Seq<char>, Seq<char>))
    requires
        hash_keys_unique(v),
    ensures
        (exists|k: int| 0 <= k < v.len() && hash_key((#[trigger] v[k]).0) == q) || hash_entry(v, q) is None,
        forall|k: int| 0 <= k < v.len() && hash_key((#[trigger] v[k]).0) == q ==> hash_entry(v, q) == Some(id_views(v[k].1@)),
{
    assert forall|k: int| 0 <= k < v.len() && hash_key((#[trigger] v[k]).0) == q implies hash_entry(v, q) == Some(id_views(v[k].1@)) by {
        lemma_hash_entry_at(v, k);
    }
    if !(exists|k: int| 0 <= k < v.len() && hash_key((#[trigger] v[k]).0) == q) {
        lemma_hash_entry_none(v, q);
    }
}

/// Picks exactly the identifier `id`.
pub open spec fn is_id(id: Seq<char>) -> spec_fn(Seq<char>) -> bool {
    |x: Seq<char>| x == id
}

/// Picks the identifiers that `r` lists under key `k`.
pub open spec fn removed_under(r: Seq<(Seq<char>, (Seq<char>, Seq<char>))>, k: (Seq<char>, Seq<char>)) -> spec_fn(Seq<char>) -> bool {
    |x: Seq<char>| r.contains((x, k))
}

/// Picks the identifiers that `r` lists.
pub open spec fn listed_in(r: Seq<(Seq<char>, (Seq<char>, Seq<char>))>) -> spec_fn(Seq<char>) -> bool {
    |x: Seq<char>| exists|i: int| 0 <= i < r.len() && r[i].0 == x
}

/// Keeps the nodes outside `start..end`.
pub open spec fn outside(start: usize, end: usize) -> spec_fn((String, CafNode)) -> bool {
    |e: (String, CafNode)| !in_range(e.1, start, end)
}

proof fn lemma_ids_without_keep_all(l: Seq<Seq<char>>, p: spec_fn(Seq<char>) -> bool)
    requires
        forall|i: int| 0 <= i < l.len() ==> !p(#[trigger] l[i]),
    ensures
        ids_without(l, p) == l,
    decreases l.len(),
{
    if l.len() > 0 {
        assert(!p(l[l.len() - 1]));
        assert forall|i: int| 0 <= i < l.drop_last().len() implies !p(#[trigger] l.drop_last()[i]) by {
            assert(l.drop_last()[i] == l[i]);
        }
        lemma_ids_without_keep_all(l.drop_last(), p);
        assert(l.drop_last().push(l.last()) =~= l);
    }
}

proof fn lemma_ids_without_single(l: Seq<Seq<char>>, p: spec_fn(Seq<char>) -> bool, k: int)
    requires
        0 <= k < l.len(),
        p(l[k]),
        forall|i: int| 0 <= i < l.len() && i != k ==> !p(#[trigger] l[i]),
    ensures
        ids_without(l, p) == l.remove(k),
    decreases l.len(),
{
    let d = l.drop_last();
    if k == l.len() - 1 {
        assert forall|i: int| 0 <= i < d.len() implies !p(#[trigger] d[i]) by {
            assert(d[i] == l[i]);
        }
        lemma_ids_without_keep_all(d, p);
        assert(l.remove(k) =~= d);
    } else {
        assert(!p(l[l.len() - 1]));
        assert(d[k] == l[k]);
        assert forall|i: int| 0 <= i < d.len() && i != k implies !p(#[trigger] d[i]) by {
            assert(d[i] == l[i]);
        }
        lemma_ids_without_single(d, p, k);
        assert(d.remove(k).push(l.last()) =~= l.remove(k));
    }
}

proof fn lemma_ids_without_congruent(l: Seq<Seq<char>>, p: spec_fn(Seq<char>) -> bool, q: spec_fn(Seq<char>) -> bool)
    requires
        forall|i: int| 0 <= i < l.len() ==> p(#[trigger] l[i]) == q(l[i]),
    ensures
        ids_without(l, p) == ids_without(l, q),
    decreases l.len(),
{
    if l.len() > 0 {
        assert(p(l[l.len() - 1]) == q(l[l.len() - 1]));
        assert forall|i: int| 0 <= i < l.drop_last().len() implies p(#[trigger] l.drop_last()[i]) == q(l.drop_last()[i]) by {
            assert(l.drop_last()[i] == l[i]);
        }
        lemma_ids_without_congruent(l.drop_last(), p, q);
    }
}

/// An index rebuilt entry by entry, keeping each key and filtering each
/// list, answers every key with the filtered list.
proof fn lemma_rebuilt_index(
    v: Seq<(CafHash, Vec<String>)>,
    w: Seq<(CafHash, Vec<String>)>,
    f: spec_fn((Seq<char>, Seq<char>)) -> spec_fn(Seq<char>) -> bool,
)
    requires
        hash_keys_unique(v),
        w.len() == v.len(),
        forall|q: int| 0 <= q < v.len() ==> hash_key((#[trigger] w[q]).0) == hash_key(v[q].0)
            && id_views(w[q].1@) == ids_without(id_views(v[q].1@), f(hash_key(v[q].0))),
    ensures
        hash_keys_unique(w),
        forall|k: (Seq<char>, Seq<char>)| #[trigger] hash_entry(w, k) == match hash_entry(v, k) {
            Some(l) => Some(ids_without(l, f(k))),
            None => None,
        },
{
    assert forall|i: int, j: int| 0 <= i < j < w.len() implies hash_key((#[trigger] w[i]).0) != hash_key((#[trigger] w[j]).0) by {
        assert(hash_key(v[i].0) != hash_key(v[j].0));
    }
    assert forall|k: (Seq<char>, Seq<char>)| #[trigger] hash_entry(w, k) == match hash_entry(v, k) {
        Some(l) => Some(ids_without(l, f(k))),
        None => None,
    } by {
        lemma_hash_entry(v, k);
        lemma_hash_entry(w, k);
        if exists|j: int| 0 <= j < v.len() && hash_key((#[trigger] v[j]).0) == k {
            let j = choose|j: int| 0 <= j < v.len() && hash_key((#[trigger] v[j]).0) == k;
            assert(hash_key(w[j].0) == k);
        } else {
            assert forall|j: int| 0 <= j < w.len() implies hash_key((#[trigger] w[j]).0) != k by {
                assert(hash_key(w[j].0) == hash_key(v[j].0));
            }
            lemma_hash_entry_none(w, k);
        }
    }
}

/// The nodes kept by a range invalidation are unique, answer each
/// identifier as before unless its node lay in the range, and keep their
/// order.
proof fn lemma_kept_nodes(v: Seq<(String, CafNode)>, start: usize, end: usize)
    requires
        node_keys_unique(v),
    ensures
        node_keys_unique(v.filter(outside(start, end))),
        forall|s: Seq<char>| #[trigger] node_entry(v.filter(outside(start, end)), s)
            == if node_entry(v, s) matches Some(n) && in_range(n, start, end) { None } else { node_entry(v, s) },
        node_ids(v.filter(outside(start, end))) == ids_without(node_ids(v), listed_in(range_entries(v, start, end))),
        forall|i: int| 0 <= i < v.filter(outside(start, end)).len() ==> v.contains(#[trigger] v.filter(outside(start, end))[i]),
    decreases v.len(),
{
    reveal(Seq::filter);
    let p = outside(start, end);
    if v.len() == 0 {
        assert(v.filter(p) =~= v);
        assert(node_ids(v) =~= Seq::<Seq<char>>::empty());
        assert forall|s: Seq<char>| #[trigger] node_entry(v.filter(p), s)
            == if node_entry(v, s) matches Some(n) && in_range(n, start, end) { None } else { node_entry(v, s) } by {}
    } else {
        let d = v.drop_last();
        let e = v.last();
        assert(node_keys_unique(d)) by {
            assert forall|i: int, j: int| 0 <= i < j < d.len() implies (#[trigger] d[i]).0@ != (#[trigger] d[j]).0@ by {
                assert(v[i].0@ != v[j].0@);
            }
        }
        lemma_kept_nodes(d, start, end);
        let kd = d.filter(p);
        let kv = v.filter(p);
        assert(forall|i: int| 0 <= i < d.len() ==> (#[trigger] d[i]).0@ != e.0@) by {
            assert forall|i: int| 0 <= i < d.len() implies (#[trigger] d[i]).0@ != e.0@ by {
                assert(v[i] == d[i]);
                assert(v[v.len() - 1] == e);
            }
        }
        lemma_node_entry_none(d, e.0@);
        // every kept node of `d` is a node of `d`, so its identifier is not `e`'s
        assert forall|i: int| 0 <= i < kd.len() implies (#[trigger] kd[i]).0@ != e.0@ by {
            let k = choose|k: int| 0 <= k < d.len() && d[k] == kd[i];
        }
        assert(node_keys_unique(kv)) by {
            if p(e) {
                assert(kv == kd.push(e));
                assert forall|i: int, j: int| 0 <= i < j < kv.len() implies (#[trigger] kv[i]).0@ != (#[trigger] kv[j]).0@ by {
                    if j < kd.len() {
                        assert(kd[i].0@ != kd[j].0@);
                    } else {
                        assert(kv[i] == kd[i]);
                    }
                }
            }
        }
        assert forall|i: int| 0 <= i < kv.len() implies v.contains(#[trigger] kv[i]) by {
            if i < kd.len() {
                assert(kv[i] == kd[i]);
                let k = choose|k: int| 0 <= k < d.len() && d[k] == kd[i];
                assert(v[k] == d[k]);
            } else {
                assert(kv[i] == e);
                assert(v[v.len() - 1] == e);
            }
        }
        assert forall|s: Seq<char>| #[trigger] node_entry(kv, s)
            == if node_entry(v, s) matches Some(n) && in_range(n, start, end) { None } else { node_entry(v, s) } by {
            if p(e) {
                assert(kv.drop_last() =~= kd);
            }
            if s == e.0@ {
                if !p(e) {
                    lemma_node_entry_none(kd, s);
                }
            }
        }
        let rv = range_entries(v, start, end);
        let rd = range_entries(d, start, end);
        let ld = node_ids(d);
        assert(node_ids(v) =~= ld.push(e.0@));
        assert(node_ids(v).drop_last() =~= ld);
        assert forall|i: int| 0 <= i < ld.len() implies listed_in(rv)(#[trigger] ld[i]) == listed_in(rd)(ld[i]) by {
            assert(ld[i] == d[i].0@);
            if listed_in(rd)(ld[i]) {
                let j = choose|j: int| 0 <= j < rd.len() && rd[j].0 == ld[i];
                if in_range(e.1, start, end) {
                    assert(rv[j] == rd[j]);
                } else {
                    assert(rv == rd);
                }
            }
            if listed_in(rv)(ld[i]) {
                let j = choose|j: int| 0 <= j < rv.len() && rv[j].0 == ld[i];
                if in_range(e.1, start, end) {
                    if j < rd.len() {
                        assert(rv[j] == rd[j]);
                    } else {
                        assert(rv[j].0 == e.0@);
                    }
                } else {
                    assert(rv == rd);
                }
            }
        }
        lemma_ids_without_congruent(ld, listed_in(rv), listed_in(rd));
        if in_range(e.1, start, end) {
            assert(rv[rv.len() - 1].0 == e.0@);
            assert(listed_in(rv)(e.0@));
        } else {
            assert(rv == rd);
            if listed_in(rv)(e.0@) {
                let j = choose|j: int| 0 <= j < rd.len() && rd[j].0 == e.0@;
                lemma_range_entries_from(d, start, end, j);
            }
            assert(node_ids(kv) =~= node_ids(kd).push(e.0@));
        }
    }
}

/// Every identifier that the range entries list is the identifier of a node.
proof fn lemma_range_entries_from(v: Seq<(String, CafNode)>, start: usize, end: usize, j: int)
    requires
        0 <= j < range_entries(v, start, end).len(),
    ensures
        exists|k: int| 0 <= k < v.len() && (#[trigger] v[k]).0@ == range_entries(v, start, end)[j].0,
    decreases v.len(),
{
    let d = v.drop_last();
    let rd = range_entries(d, start, end);
    if j < rd.len() {
        lemma_range_entries_from(d, start, end, j);
        let k = choose|k: int| 0 <= k < d.len() && (#[trigger] d[k]).0@ == rd[j].0;
        assert(v[k] == d[k]);
    } else {
        assert(v[v.len() - 1].0@ == range_entries(v, start, end)[j].0);
    }
}

/// Canonical nodes by identifier, with the identifiers recorded under
/// each hash.
pub struct CafCache {
    node_map: Vec<(String, CafNode)>,
    hash_index: Vec<(CafHash, Vec<String>)>,
}

impl CafCache {
    /// Identifiers and hash keys each occur once.
    pub closed spec fn wf(&self) -> bool {
        node_keys_unique(self.node_map@) && hash_keys_unique(self.hash_index@)
    }

    /// The node cached under `id`.
    pub closed spec fn spec_node(&self, id: Seq<char>) -> Option<CafNode> {
        node_entry(self.node_map@, id)
    }

    /// The identifiers of the cached nodes, in the order they were first
    /// cached.
    pub closed spec fn spec_order(&self) -> Seq<Seq<char>> {
        node_ids(self.node_map@)
    }

    /// The identifiers recorded under hash key `k`, in the order recorded.
    pub closed spec fn spec_ids(&self, k: (Seq<char>, Seq<char>)) -> Option<Seq<Seq<char>>> {
        hash_entry(self.hash_index@, k)
    }

    /// The cached nodes within `start..end`, each with its range key, in
    /// cache order.
    pub closed spec fn spec_range(&self, start: usize, end: usize) -> Seq<(Seq<char>, (Seq<char>, Seq<char>))> {
        range_entries(self.node_map@, start, end)
    }

    /// An empty cache.
    pub fn new() -> (r: Self)
        ensures
            r.wf(),
            forall|s: Seq<char>| #[trigger] r.spec_node(s) is None,
            forall|k: (Seq<char>, Seq<char>)| #[trigger] r.spec_ids(k) is None,
            r.spec_order() == Seq::<Seq<char>>::empty(),
    {
        let r = Self { node_map: Vec::new(), hash_index: Vec::new() };
        assert(r.spec_order() =~= Seq::<Seq<char>>::empty());
        r
    }

    /// The node cached under `node_id`.
    pub fn get(&self, node_id: &str) -> (r: Option<&CafNode>)
        requires
            self.wf(),
        ensures
            match r {
                Some(n) => self.spec_node(node_id@) == Some(*n),
                None => self.spec_node(node_id@) is None,
            },
    {
        proof { lemma_node_entry(self.node_map@, node_id@); }
        let mut k: usize = 0;
        while k < self.node_map.len()
            invariant
                k <= self.node_map@.len(),
                self.wf(),
                forall|q: int| 0 <= q < k ==> (#[trigger] self.node_map@[q]).0@ != node_id@,
            decreases self.node_map@.len() - k,
        {
            if str_eq(self.node_map[k].0.as_str(), node_id) {
                proof { lemma_node_entry_at(self.node_map@, k as int); }
                return Some(&self.node_map[k].1);
            }
            k = k + 1;
        }
        None
    }

    /// The identifiers recorded under `hash`.
    pub fn find_by_hash(&self, hash: &CafHash) -> (r: Option<&Vec<String>>)
        requires
            self.wf(),
        ensures
            match r {
                Some(l) => self.spec_ids(hash_key(*hash)) == Some(id_views(l@)),
                None => self.spec_ids(hash_key(*hash)) is None,
            },
    {
        proof { lemma_hash_entry(self.hash_index@, hash_key(*hash)); }
        let mut k: usize = 0;
        while k < self.hash_index.len()
            invariant
                k <= self.hash_index@.len(),
                self.wf(),
                forall|q: int| 0 <= q < k ==> hash_key((#[trigger] self.hash_index@[q]).0) != hash_key(*hash),
            decreases self.hash_index@.len() - k,
        {
            if self.hash_index[k].0.same_as(hash) {
                proof { lemma_hash_entry_at(self.hash_index@, k as int); }
                return Some(&self.hash_index[k].1);
            }
            k = k + 1;
        }
        None
    }

    /// Records `node_id` under `hash` and caches `node` under `node_id`,
    /// replacing a node cached there before.
    pub fn insert(&mut self, node_id: String, node: CafNode, hash: CafHash)
        requires
            old(self).wf(),
        ensures
            final(self).wf(),
            forall|s: Seq<char>| #[trigger] final(self).spec_node(s) == if s == node_id@ {
                Some(node)
            } else {
                old(self).spec_node(s)
            },
            forall|k: (Seq<char>, Seq<char>)| #[trigger] final(self).spec_ids(k) == if k == hash_key(hash) {
                Some(match old(self).spec_ids(k) {
                    Some(l) => l.push(node_id@),
                    None => seq![node_id@],
                })
            } else {
                old(self).spec_ids(k)
            },
            final(self).spec_order() == if old(self).spec_node(node_id@) is Some {
                old(self).spec_order()
            } else {
                old(self).spec_order().push(node_id@)
            },
    {
        self.insert_hash(node_id.clone(), hash);
        self.insert_node(node_id, node);
    }

    fn insert_hash(&mut self, node_id: String, hash: CafHash)
        requires
            hash_keys_unique(old(self).hash_index@),
        ensures
            hash_keys_unique(final(self).hash_index@),
            final(self).node_map == old(self).node_map,
            forall|k: (Seq<char>, Seq<char>)| #[trigger] hash_entry(final(self).hash_index@, k) == if k == hash_key(hash) {
                Some(match hash_entry(old(self).hash_index@, k) {
                    Some(l) => l.push(node_id@),
                    None => seq![node_id@],
                })
            } else {
                hash_entry(old(self).hash_index@, k)
            },
    {
        let ghost v = self.hash_index@;
        let ghost hk = hash_key(hash);
        let mut k: usize = 0;
        while k < self.hash_index.len()
            invariant
                self.hash_index@ == v,
                v == old(self).hash_index@,
                self.node_map == old(self).node_map,
                hash_keys_unique(v),
                hk == hash_key(hash),
                k <= v.len(),
                forall|q: int| 0 <= q < k ==> hash_key((#[trigger] v[q]).0) != hk,
            decreases v.len() - k,
        {
            if self.hash_index[k].0.same_as(&hash) {
                let mut entry = self.hash_index.remove(k);
                let ghost e0 = entry;
                entry.1.push(node_id);
                let ghost e1 = entry;
                self.hash_index.insert(k, entry);
                proof {
                    let w = self.hash_index@;
                    assert(e0 == v[k as int]);
                    assert(w =~= v.update(k as int, e1));
                    assert(id_views(e1.1@) =~= id_views(e0.1@).push(node_id@));
                    assert(hash_keys_unique(w)) by {
                        assert forall|i: int, j: int| 0 <= i < j < w.len() implies hash_key((#[trigger] w[i]).0) != hash_key((#[trigger] w[j]).0) by {
                            assert(hash_key(v[i].0) != hash_key(v[j].0));
                        }
                    }
                    assert forall|q: (Seq<char>, Seq<char>)| #[trigger] hash_entry(w, q) == if q == hk {
                        Some(match hash_entry(v, q) {
                            Some(l) => l.push(node_id@),
                            None => seq![node_id@],
                        })
                    } else {
                        hash_entry(v, q)
                    } by {
                        lemma_hash_entry(v, q);
                        lemma_hash_entry(w, q);
                        lemma_hash_entry_at(v, k as int);
                        lemma_hash_entry_at(w, k as int);
                        if q != hk {
                            if exists|j: int| 0 <= j < v.len() && hash_key((#[trigger] v[j]).0) == q {
                                let j = choose|j: int| 0 <= j < v.len() && hash_key((#[trigger] v[j]).0) == q;
                                assert(j != k);
                                assert(w[j] == v[j]);
                            } else {
                                assert forall|j: int| 0 <= j < w.len() implies hash_key((#[trigger] w[j]).0) != q by {
                                    if j != k {
                                        assert(w[j] == v[j]);
                                    }
                                }
                                lemma_hash_entry_none(w, q);
                            }
                        }
                    }
                }
                return;
            }
            k = k + 1;
        }
        let mut ids: Vec<String> = Vec::new();
        ids.push(node_id);
        let ghost e = (hash, ids);
        self.hash_index.push((hash, ids));
        proof {
            let w = self.hash_index@;
            assert(w =~= v.push(e));
            assert(id_views(e.1@) =~= seq![node_id@]);
            lemma_hash_entry_none(v, hk);
            assert(w.drop_last() =~= v);
            assert forall|q: (Seq<char>, Seq<char>)| #[trigger] hash_entry(w, q) == if q == hk {
                Some(match hash_entry(v, q) {
                    Some(l) => l.push(node_id@),
                    None => seq![node_id@],
                })
            } else {
                hash_entry(v, q)
            } by {
                assert(w.last() == e);
            }
            assert(hash_keys_unique(w)) by {
                assert forall|i: int, j: int| 0 <= i < j < w.len() implies hash_key((#[trigger] w[i]).0) != hash_key((#[trigger] w[j]).0) by {
                    if j < v.len() {
                        assert(hash_key(v[i].0) != hash_key(v[j].0));
                    } else {
                        assert(hash_key(v[i].0) != hk);
                    }
                }
            }
        }
    }

    fn insert_node(&mut self, node_id: String, node: CafNode)
        requires
            node_keys_unique(old(self).node_map@),
        ensures
            node_keys_unique(final(self).node_map@),
            final(self).hash_index == old(self).hash_index,
            forall|s: Seq<char>| #[trigger] node_entry(final(self).node_map@, s) == if s == node_id@ {
                Some(node)
            } else {
                node_entry(old(self).node_map@, s)
            },
            node_ids(final(self).node_map@) == if node_entry(old(self).node_map@, node_id@) is Some {
                node_ids(old(self).node_map@)
            } else {
                node_ids(old(self).node_map@).push(node_id@)
            },
    {
        let ghost v = self.node_map@;
        let ghost id = node_id@;
        proof { lemma_node_entry(v, id); }
        let mut k: usize = 0;
        while k < self.node_map.len()
            invariant
                self.node_map@ == v,
                v == old(self).node_map@,
                self.hash_index == old(self).hash_index,
                node_keys_unique(v),
                id == node_id@,
                k <= v.len(),
                forall|q: int| 0 <= q < k ==> (#[trigger] v[q]).0@ != id,
                forall|q: int| 0 <= q < v.len() && (#[trigger] v[q]).0@ == id ==> node_entry(v, id) == Some(v[q].1),
                (exists|q: int| 0 <= q < v.len() && (#[trigger] v[q]).0@ == id) || node_entry(v, id) is None,
            decreases v.len() - k,
        {
            if str_eq(self.node_map[k].0.as_str(), node_id.as_str()) {
                let ghost e = (node_id, node);
                self.node_map.set(k, (node_id, node));
                proof {
                    let w = self.node_map@;
                    assert(w =~= v.update(k as int, e));
                    assert(node_keys_unique(w)) by {
                        assert forall|i: int, j: int| 0 <= i < j < w.len() implies (#[trigger] w[i]).0@ != (#[trigger] w[j]).0@ by {
                            assert(v[i].0@ != v[j].0@);
                        }
                    }
                    assert forall|s: Seq<char>| #[trigger] node_entry(w, s) == if s == id {
                        Some(node)
                    } else {
                        node_entry(v, s)
                    } by {
                        lemma_node_entry(v, s);
                        lemma_node_entry(w, s);
                        lemma_node_entry_at(w, k as int);
                        if s != id {
                            if exists|j: int| 0 <= j < v.len() && (#[trigger] v[j]).0@ == s {
                                let j = choose|j: int| 0 <= j < v.len() && (#[trigger] v[j]).0@ == s;
                                assert(j != k);
                                assert(w[j] == v[j]);
                            } else {
                                assert forall|j: int| 0 <= j < w.len() implies (#[trigger] w[j]).0@ != s by {
                                    if j != k {
                                        assert(w[j] == v[j]);
                                    }
                                }
                                lemma_node_entry_none(w, s);
                            }
                        }
                    }
                    assert(node_ids(w) =~= node_ids(v));
                    assert(node_entry(v, id) is Some);
                }
                return;
            }
            k = k + 1;
        }
        let ghost e = (node_id, node);
        self.node_map.push((node_id, node));
        proof {
            let w = self.node_map@;
            assert(w =~= v.push(e));
            lemma_node_entry_none(v, id);
            assert(w.drop_last() =~= v);
            assert forall|q: Seq<char>| #[trigger] node_entry(w, q) == if q == id {
                Some(node)
            } else {
                node_entry(v, q)
            } by {
                assert(w.last() == e);
            }
            assert(node_keys_unique(w)) by {
                assert forall|i: int, j: int| 0 <= i < j < w.len() implies (#[trigger] w[i]).0@ != (#[trigger] w[j]).0@ by {
                    if j < v.len() {
                        assert(v[i].0@ != v[j].0@);
                    } else {
                        assert(v[i].0@ != id);
                    }
                }
            }
            assert(node_ids(w) =~= node_ids(v).push(id));
        }
    }
}

/// The identifiers and range keys of removed nodes.
pub open spec fn removed_view(r: Seq<(String, CafHash)>) -> Seq<(Seq<char>, (Seq<char>, Seq<char>))> {
    r.map_values(|e: (String, CafHash)| (e.0@, hash_key(e.1)))
}

/// `l` without `id`.
fn ids_without_id(l: &Vec<String>, id: &str) -> (r: Vec<String>)
    ensures
        id_views(r@) == ids_without(id_views(l@), is_id(id@)),
{
    let mut out: Vec<String> = Vec::new();
    let mut i: usize = 0;
    while i < l.len()
        invariant
            i <= l@.len(),
            id_views(out@) == ids_without(id_views(l@.take(i as int)), is_id(id@)),
        decreases l@.len() - i,
    {
        let ghost before = id_views(out@);
        proof {
            assert(id_views(l@.take(i + 1)).drop_last() =~= id_views(l@.take(i as int)));
            assert(id_views(l@.take(i + 1)).last() == l@[i as int]@);
        }
        if !str_eq(l[i].as_str(), id) {
            out.push(l[i].clone());
            assert(id_views(out@) =~= before.push(l@[i as int]@));
        }
        i = i + 1;
    }
    assert(l@.take(l@.len() as int) =~= l@);
    out
}

/// Whether `removed` lists `x` under `key`.
fn lists_under(removed: &Vec<(String, CafHash)>, x: &str, key: &CafHash) -> (b: bool)
    ensures
        b == removed_view(removed@).contains((x@, hash_key(*key))),
{
    let ghost rv = removed_view(removed@);
    let mut i: usize = 0;
    while i < removed.len()
        invariant
            i <= removed@.len(),
            rv == removed_view(removed@),
            forall|j: int| 0 <= j < i ==> rv[j] != (x@, hash_key(*key)),
        decreases removed@.len() - i,
    {
        if str_eq(removed[i].0.as_str(), x) && removed[i].1.same_as(key) {
            assert(rv[i as int] == (x@, hash_key(*key)));
            return true;
        }
        i = i + 1;
    }
    false
}

/// `l` without the identifiers that `removed` lists under `key`.
fn ids_without_removed(l: &Vec<String>, removed: &Vec<(String, CafHash)>, key: &CafHash) -> (r: Vec<String>)
    ensures
        id_views(r@) == ids_without(id_views(l@), removed_under(removed_view(removed@), hash_key(*key))),
{
    let ghost f = removed_under(removed_view(removed@), hash_key(*key));
    let mut out: Vec<String> = Vec::new();
    let mut i: usize = 0;
    while i < l.len()
        invariant
            i <= l@.len(),
            f == removed_under(removed_view(removed@), hash_key(*key)),
            id_views(out@) == ids_without(id_views(l@.take(i as int)), f),
        decreases l@.len() - i,
    {
        let ghost before = id_views(out@);
        proof {
            assert(id_views(l@.take(i + 1)).drop_last() =~= id_views(l@.take(i as int)));
            assert(id_views(l@.take(i + 1)).last() == l@[i as int]@);
        }
        if !lists_under(removed, l[i].as_str(), key) {
            out.push(l[i].clone());
            assert(id_views(out@) =~= before.push(l@[i as int]@));
        }
        i = i + 1;
    }
    assert(l@.take(l@.len() as int) =~= l@);
    out
}

impl CafCache {
    /// Drops the node cached under `node_id` and the identifier from every
    /// hash, handing the node back; without such a node nothing changes.
    pub fn invalidate(&mut self, node_id: &str) -> (r: Option<CafNode>)
        requires
            old(self).wf(),
        ensures
            final(self).wf(),
            r == old(self).spec_node(node_id@),
            r is None ==> *final(self) == *old(self),
            r is Some ==> {
                &&& forall|s: Seq<char>| #[trigger] final(self).spec_node(s) == if s == node_id@ {
                    None
                } else {
                    old(self).spec_node(s)
                }
                &&& forall|k: (Seq<char>, Seq<char>)| #[trigger] final(self).spec_ids(k) == match old(self).spec_ids(k) {
                    Some(l) => Some(ids_without(l, is_id(node_id@))),
                    None => None,
                }
                &&& final(self).spec_order() == ids_without(old(self).spec_order(), is_id(node_id@))
            },
    {
        let ghost v = self.node_map@;
        let ghost id = node_id@;
        proof { lemma_node_entry(v, id); }
        let mut k: usize = 0;
        while k < self.node_map.len()
            invariant
                self.node_map@ == v,
                *self == *old(self),
                self.wf(),
                id == node_id@,
                k <= v.len(),
                forall|q: int| 0 <= q < k ==> (#[trigger] v[q]).0@ != id,
            decreases v.len() - k,
        {
            if str_eq(self.node_map[k].0.as_str(), node_id) {
                proof { lemma_node_entry_at(v, k as int); }
                let entry = self.node_map.remove(k);
                proof {
                    let w = self.node_map@;
                    assert(w =~= v.remove(k as int));
                    assert(node_keys_unique(w)) by {
                        assert forall|i: int, j: int| 0 <= i < j < w.len() implies (#[trigger] w[i]).0@ != (#[trigger] w[j]).0@ by {
                            if i < k {
                                if j < k {
                                    assert(v[i].0@ != v[j].0@);
                                } else {
                                    assert(v[i].0@ != v[j + 1].0@);
                                }
                            } else {
                                assert(v[i + 1].0@ != v[j + 1].0@);
                            }
                        }
                    }
                    assert forall|s: Seq<char>| #[trigger] node_entry(w, s) == if s == id { None } else { node_entry(v, s) } by {
                        lemma_node_entry(v, s);
                        lemma_node_entry(w, s);
                        if exists|j: int| 0 <= j < w.len() && (#[trigger] w[j]).0@ == s {
                            let j = choose|j: int| 0 <= j < w.len() && (#[trigger] w[j]).0@ == s;
                            if j < k {
                                assert(w[j] == v[j]);
                                assert(v[j].0@ != v[k as int].0@);
                            } else {
                                assert(w[j] == v[j + 1]);
                                assert(v[k as int].0@ != v[j + 1].0@);
                            }
                        } else if s != id {
                            if exists|j: int| 0 <= j < v.len() && (#[trigger] v[j]).0@ == s {
                                let j = choose|j: int| 0 <= j < v.len() && (#[trigger] v[j]).0@ == s;
                                assert(j != k);
                                if j < k {
                                    assert(w[j] == v[j]);
                                } else {
                                    assert(w[j - 1] == v[j]);
                                }
                            }
                        }
                    }
                    let l = node_ids(v);
                    assert forall|i: int| 0 <= i < l.len() && i != k implies !is_id(id)(#[trigger] l[i]) by {
                        if i < k {
                            assert(v[i].0@ != v[k as int].0@);
                        } else {
                            assert(v[k as int].0@ != v[i].0@);
                        }
                    }
                    lemma_ids_without_single(l, is_id(id), k as int);
                    assert(node_ids(w) =~= l.remove(k as int));
                }
                self.drop_id_everywhere(node_id);
                return Some(entry.1);
            }
            k = k + 1;
        }
        None
    }

    fn drop_id_everywhere(&mut self, node_id: &str)
        requires
            hash_keys_unique(old(self).hash_index@),
        ensures
            final(self).node_map == old(self).node_map,
            hash_keys_unique(final(self).hash_index@),
            forall|k: (Seq<char>, Seq<char>)| #[trigger] hash_entry(final(self).hash_index@, k) == match hash_entry(old(self).hash_index@, k) {
                Some(l) => Some(ids_without(l, is_id(node_id@))),
                None => None,
            },
    {
        let ghost v = self.hash_index@;
        let ghost f = |k: (Seq<char>, Seq<char>)| is_id(node_id@);
        let mut rebuilt: Vec<(CafHash, Vec<String>)> = Vec::new();
        let mut j: usize = 0;
        while j < self.hash_index.len()
            invariant
                self.hash_index@ == v,
                f == (|k: (Seq<char>, Seq<char>)| is_id(node_id@)),
                j <= v.len(),
                rebuilt@.len() == j,
                forall|q: int| 0 <= q < j ==> hash_key((#[trigger] rebuilt@[q]).0) == hash_key(v[q].0)
                    && id_views(rebuilt@[q].1@) == ids_without(id_views(v[q].1@), f(hash_key(v[q].0))),
            decreases v.len() - j,
        {
            let h = self.hash_index[j].0.clone();
            let l = ids_without_id(&self.hash_index[j].1, node_id);
            rebuilt.push((h, l));
            j = j + 1;
        }
        proof { lemma_rebuilt_index(v, rebuilt@, f); }
        self.hash_index = rebuilt;
    }

    /// Drops every cached node lying within `start..end` and hands back
    /// their identifiers in cache order; each dropped identifier leaves the
    /// list of the hash of its identifier, a colon and its kind.
    pub fn invalidate_range(&mut self, start: usize, end: usize) -> (r: Vec<String>)
        requires
            old(self).wf(),
        ensures
            final(self).wf(),
            id_views(r@) == old(self).spec_range(start, end).map_values(|e: (Seq<char>, (Seq<char>, Seq<char>))| e.0),
            forall|s: Seq<char>| #[trigger] final(self).spec_node(s)
                == if old(self).spec_node(s) matches Some(n) && in_range(n, start, end) { None } else { old(self).spec_node(s) },
            forall|k: (Seq<char>, Seq<char>)| #[trigger] final(self).spec_ids(k) == match old(self).spec_ids(k) {
                Some(l) => Some(ids_without(l, removed_under(old(self).spec_range(start, end), k))),
                None => None,
            },
            final(self).spec_order() == ids_without(old(self).spec_order(), listed_in(old(self).spec_range(start, end))),
    {
        let ghost v = self.node_map@;
        let ghost p = outside(start, end);
        let mut old_nodes: Vec<(String, CafNode)> = Vec::new();
        std::mem::swap(&mut old_nodes, &mut self.node_map);
        let mut rest = old_nodes;
        let n = rest.len();
        let mut kept: Vec<(String, CafNode)> = Vec::new();
        let mut removed: Vec<(String, CafHash)> = Vec::new();
        let mut out: Vec<String> = Vec::new();
        let mut i: usize = 0;
        while i < n
            invariant
                n == v.len(),
                i <= n,
                rest@ == v.skip(i as int),
                p == outside(start, end),
                kept@ == v.take(i as int).filter(p),
                removed_view(removed@) == range_entries(v.take(i as int), start, end),
                id_views(out@) == range_entries(v.take(i as int), start, end).map_values(|e: (Seq<char>, (Seq<char>, Seq<char>))| e.0),
            decreases n - i,
        {
            let e = rest.remove(0);
            let ghost rv0 = removed_view(removed@);
            let ghost ov0 = id_views(out@);
            proof {
                assert(v.take(i + 1).drop_last() =~= v.take(i as int));
                assert(e == v[i as int]);
                assert(v.take(i + 1).last() == e);
                reveal(Seq::filter);
            }
            if e.1.byte_start >= start && e.1.byte_end <= end {
                let mut joined = e.0.clone();
                joined.append(":");
                joined.append(e.1.kind.as_str());
                let h = CafHash::sha256(joined.as_str().as_bytes());
                out.push(e.0.clone());
                removed.push((e.0, h));
                proof {
                    assert(hash_key(h) == range_key(e.0@, e.1.kind@));
                    assert(removed_view(removed@) =~= rv0.push((e.0@, hash_key(h))));
                    assert(id_views(out@) =~= ov0.push(e.0@));
                    assert(range_entries(v.take(i + 1), start, end).map_values(|x: (Seq<char>, (Seq<char>, Seq<char>))| x.0)
                        =~= range_entries(v.take(i as int), start, end).map_values(|x: (Seq<char>, (Seq<char>, Seq<char>))| x.0).push(e.0@));
                }
            } else {
                kept.push(e);
            }
            assert(rest@ =~= v.skip(i + 1));
            i = i + 1;
        }
        assert(v.take(n as int) =~= v);
        proof { lemma_kept_nodes(v, start, end); }
        self.node_map = kept;
        self.drop_removed_everywhere(&removed);
        out
    }

    fn drop_removed_everywhere(&mut self, removed: &Vec<(String, CafHash)>)
        requires
            hash_keys_unique(old(self).hash_index@),
        ensures
            final(self).node_map == old(self).node_map,
            hash_keys_unique(final(self).hash_index@),
            forall|k: (Seq<char>, Seq<char>)| #[trigger] hash_entry(final(self).hash_index@, k) == match hash_entry(old(self).hash_index@, k) {
                Some(l) => Some(ids_without(l, removed_under(removed_view(removed@), k))),
                None => None,
            },
    {
        let ghost v = self.hash_index@;
        let ghost f = |k: (Seq<char>, Seq<char>)| removed_under(removed_view(removed@), k);
        let mut rebuilt: Vec<(CafHash, Vec<String>)> = Vec::new();
        let mut j: usize = 0;
        while j < self.hash_index.len()
            invariant
                self.hash_index@ == v,
                f == (|k: (Seq<char>, Seq<char>)| removed_under(removed_view(removed@), k)),
                j <= v.len(),
                rebuilt@.len() == j,
                forall|q: int| 0 <= q < j ==> hash_key((#[trigger] rebuilt@[q]).0) == hash_key(v[q].0)
                    && id_views(rebuilt@[q].1@) == ids_without(id_views(v[q].1@), f(hash_key(v[q].0))),
            decreases v.len() - j,
        {
            let h = self.hash_index[j].0.clone();
            let l = ids_without_removed(&self.hash_index[j].1, removed, &self.hash_index[j].0);
            rebuilt.push((h, l));
            j = j + 1;
        }
        proof { lemma_rebuilt_index(v, rebuilt@, f); }
        self.hash_index = rebuilt;
    }
}

impl Default for CafCache {
    fn default() -> (r: Self)
        ensures
            r.wf(),
            forall|s: Seq<char>| #[trigger] r.spec_node(s) is None,
            forall|k: (Seq<char>, Seq<char>)| #[trigger] r.spec_ids(k) is None,
            r.spec_order() == Seq::<Seq<char>>::empty(),
    {
        Self::new()
    }
}

} // verus!
