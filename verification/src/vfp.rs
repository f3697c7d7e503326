//! Federation of nodes: commitments, views of peers, divergence between
//! them, alignment hints, federation states and capital.

pub mod alignment;
pub mod closure;
pub mod market;
pub mod predictive;

use vstd::prelude::*;
use vstd::string::*;
use vstd::utf8::encode_utf8;
use crate::base::{EpochId, NodeId};
use crate::text::{decimal, str_eq, u64_to_decimal};
use crate::types::hash::{sha256_digest, sha256_of};

verus! {

/// A 32-byte commitment to a state.
#[derive(Debug, Clone, Copy, PartialEq, Eq, Hash)]
pub struct CommitmentHash(pub [u8; 32]);

/// Two commitments are the same bytes.
pub open spec fn same_commitment(a: CommitmentHash, b: CommitmentHash) -> bool {
    a.0@ == b.0@
}

impl CommitmentHash {
    /// The SHA-256 of `bytes`.
    pub fn from_bytes(bytes: &[u8]) -> (r: Self)
        ensures
            r.0@ == sha256_of(bytes@),
    {
        let d = sha256_digest(bytes);
        let mut arr: [u8; 32] = [0u8; 32];
        let mut i: usize = 0;
        while i < 32
            invariant
                i <= 32,
                d@.len() == 32,
                arr@.len() == 32,
                forall|j: int| 0 <= j < i ==> arr@[j] == d@[j],
            decreases 32 - i,
        {
            arr.set(i, d[i]);
            i = i + 1;
        }
        assert(arr@ =~= d@);
        CommitmentHash(arr)
    }

    /// The commitment every federation starts from: the SHA-256 of
    /// `vantage-genesis`.
    pub fn genesis() -> (r: Self)
        ensures
            r.0@ == sha256_of(encode_utf8("vantage-genesis"@)),
    {
        Self::from_bytes("vantage-genesis".as_bytes())
    }

    /// Whether two commitments are equal.
    pub fn same_as(&self, other: &Self) -> (r: bool)
        ensures
            r == same_commitment(*self, *other),
    {
        let mut i: usize = 0;
        while i < 32
            invariant
                i <= 32,
                self.0@.len() == 32,
                other.0@.len() == 32,
                forall|j: int| 0 <= j < i ==> self.0@[j] == other.0@[j],
            decreases 32 - i,
        {
            if self.0[i] != other.0[i] {
                return false;
            }
            i = i + 1;
        }
        assert(self.0@ =~= other.0@);
        true
    }
}

/// What a node reports of itself: its epoch, commitment and genesis.
#[derive(Debug)]
pub struct NodeView {
    pub node_id: NodeId,
    pub epoch: EpochId,
    pub commit_hash: CommitmentHash,
    pub genesis_hash: CommitmentHash,
}

impl Clone for NodeView {
    fn clone(&self) -> (r: Self)
        ensures
            r == *self,
    {
        NodeView { node_id: self.node_id.clone(), epoch: self.epoch, commit_hash: self.commit_hash, genesis_hash: self.genesis_hash }
    }
}

impl NodeView {
    pub fn new(node_id: NodeId, epoch: EpochId, commit_hash: CommitmentHash, genesis_hash: CommitmentHash) -> (r: Self)
        ensures
            r == (NodeView { node_id, epoch, commit_hash, genesis_hash }),
    {
        Self { node_id, epoch, commit_hash, genesis_hash }
    }

    /// Whether two nodes started from the same genesis.
    pub fn shares_genesis(&self, other: &NodeView) -> (r: bool)
        ensures
            r == same_commitment(self.genesis_hash, other.genesis_hash),
    {
        self.genesis_hash.same_as(&other.genesis_hash)
    }
}

/// A node's own state and the peers it knows.
#[derive(Debug)]
pub struct FederationNodeState {
    pub node_id: NodeId,
    pub epoch: EpochId,
    pub commit_hash: CommitmentHash,
    pub genesis_hash: CommitmentHash,
    pub known_peers: Vec<NodeView>,
}

/// The commitment of a node at an epoch: the SHA-256 of its identifier,
/// a colon and the epoch number.
pub open spec fn node_commitment(node: Seq<char>, epoch: u64) -> Seq<u8> {
    sha256_of(encode_utf8(node + ":"@ + decimal(epoch as nat)))
}

impl FederationNodeState {
    /// A node at an epoch, committed to its identifier and epoch, with no
    /// known peers.
    pub fn new(node_id: NodeId, epoch: EpochId, genesis_hash: CommitmentHash) -> (r: Self)
        ensures
            r.node_id == node_id,
            r.epoch == epoch,
            r.commit_hash.0@ == node_commitment(node_id@, epoch.0),
            r.genesis_hash == genesis_hash,
            r.known_peers@.len() == 0,
    {
        let mut text = node_id.0.clone();
        text.append(":");
        let d = u64_to_decimal(epoch.0);
        text.append(d.as_str());
        let commit_hash = CommitmentHash::from_bytes(text.as_str().as_bytes());
        Self { node_id, epoch, commit_hash, genesis_hash, known_peers: Vec::new() }
    }

    /// The node's view of itself.
    pub fn view(&self) -> (r: NodeView)
        ensures
            r == (NodeView { node_id: self.node_id, epoch: self.epoch, commit_hash: self.commit_hash, genesis_hash: self.genesis_hash }),
    {
        NodeView::new(self.node_id.clone(), self.epoch, self.commit_hash, self.genesis_hash)
    }
}

/// The position of `node` among keyed views, if any.
pub open spec fn view_index(vs: Seq<(NodeId, NodeView)>, node: Seq<char>) -> Option<int>
    decreases vs.len(),
{
    if vs.len() == 0 {
        None
    } else if vs.last().0@ == node {
        Some(vs.len() - 1)
    } else {
        view_index(vs.drop_last(), node)
    }
}

/// No node occurs twice.
pub open spec fn unique_nodes(vs: Seq<(NodeId, NodeView)>) -> bool {
    forall|i: int, j: int| 0 <= i < j < vs.len() ==> vs[i].0@ != vs[j].0@
}

proof fn lemma_view_index(vs: Seq<(NodeId, NodeView)>, node: Seq<char>, k: int)
    requires
        0 <= k <= vs.len(),
        unique_nodes(vs),
        forall|j: int| 0 <= j < k ==> (#[trigger] vs[j]).0@ != node,
    ensures
        k < vs.len() && vs[k].0@ == node ==> view_index(vs, node) == Some(k),
        k == vs.len() ==> view_index(vs, node) is None,
    decreases vs.len(),
{
    if vs.len() > 0 {
        let d = vs.drop_last();
        assert(unique_nodes(d));
        if k == vs.len() {
            lemma_view_index(d, node, k - 1);
        } else if k < vs.len() - 1 {
            if vs[k].0@ == node {
                assert(vs.last().0@ != node);
            }
            lemma_view_index(d, node, k);
        }
    }
}

fn find_view(vs: &Vec<(NodeId, NodeView)>, node: &NodeId) -> (r: Option<usize>)
    requires
        unique_nodes(vs@),
    ensures
        match r {
            Some(i) => view_index(vs@, node@) == Some(i as int) && i < vs@.len(),
            None => view_index(vs@, node@) is None,
        },
{
    let mut i: usize = 0;
    while i < vs.len()
        invariant
            i <= vs@.len(),
            unique_nodes(vs@),
            forall|j: int| 0 <= j < i ==> (#[trigger] vs@[j]).0@ != node@,
        decreases vs@.len() - i,
    {
        if str_eq(vs[i].0.0.as_str(), node.0.as_str()) {
            proof { lemma_view_index(vs@, node@, i as int); }
            return Some(i);
        }
        i = i + 1;
    }
    proof { lemma_view_index(vs@, node@, i as int); }
    None
}

/// The entries after adding, in order, each reported peer not yet known,
/// under the reporter's genesis.
pub open spec fn add_known(vs: Seq<(NodeId, NodeView)>, known: Seq<(NodeId, (EpochId, CommitmentHash))>, genesis: CommitmentHash) -> Seq<(NodeId, NodeView)>
    decreases known.len(),
{
    if known.len() == 0 {
        vs
    } else {
        let p = add_known(vs, known.drop_last(), genesis);
        let e = known.last();
        match view_index(p, e.0@) {
            Some(_) => p,
            None => p.push((e.0, NodeView { node_id: e.0, epoch: e.1.0, commit_hash: e.1.1, genesis_hash: genesis })),
        }
    }
}

/// A node's view of the federation: itself and what it knows of peers.
#[derive(Debug)]
pub struct FederationView {
    pub local: NodeView,
    pub peers: Vec<(NodeId, NodeView)>,
}

impl FederationView {
    /// The view of a node that knows no peer.
    pub fn new(local: NodeView) -> (r: Self)
        ensures
            r.local == local,
            r.peers@.len() == 0,
    {
        Self { local, peers: Vec::new() }
    }

    /// The commitment of `node` at `epoch`, where the view records that
    /// node at that epoch.
    pub fn nth_commitment(&self, node: &NodeId, epoch: EpochId) -> (r: Option<CommitmentHash>)
        requires
            unique_nodes(self.peers@),
        ensures
            node@ == self.local.node_id@ ==> r == if epoch == self.local.epoch {
                Some(self.local.commit_hash)
            } else {
                None::<CommitmentHash>
            },
            node@ != self.local.node_id@ ==> r == match view_index(self.peers@, node@) {
                Some(i) => if self.peers@[i].1.epoch == epoch {
                    Some(self.peers@[i].1.commit_hash)
                } else {
                    None::<CommitmentHash>
                },
                None => None::<CommitmentHash>,
            },
    {
        if str_eq(node.0.as_str(), self.local.node_id.0.as_str()) {
            if epoch.0 == self.local.epoch.0 {
                return Some(self.local.commit_hash);
            }
            return None;
        }
        match find_view(&self.peers, node) {
            Some(i) => {
                let view = &self.peers[i].1;
                if view.epoch.0 == epoch.0 {
                    Some(view.commit_hash)
                } else {
                    None
                }
            },
            None => None,
        }
    }

    /// Takes in what a node reported: each peer it knows (identifier, epoch
    /// and commitment, under the reporter's genesis) is added unless already
    /// known, then the reporter's own view is added, or replaces the known
    /// one when its epoch is higher.
    pub fn ingest(&mut self, origin: NodeView, known_peers: Vec<(NodeId, (EpochId, CommitmentHash))>)
        requires
            unique_nodes(old(self).peers@),
        ensures
            unique_nodes(final(self).peers@),
            final(self).local == old(self).local,
            final(self).peers@ == insert_view(add_known(old(self).peers@, known_peers@, origin.genesis_hash), origin),
    {
        let mut k: usize = 0;
        while k < known_peers.len()
            invariant
                k <= known_peers@.len(),
                unique_nodes(self.peers@),
                self.local == old(self).local,
                self.peers@ == add_known(old(self).peers@, known_peers@.take(k as int), origin.genesis_hash),
            decreases known_peers@.len() - k,
        {
            let entry = &known_peers[k];
            proof {
                assert(known_peers@.take(k + 1).drop_last() =~= known_peers@.take(k as int));
                lemma_view_index_meaning(self.peers@, entry.0@);
            }
            match find_view(&self.peers, &entry.0) {
                Some(_) => {},
                None => {
                    let view = NodeView::new(entry.0.clone(), entry.1.0, entry.1.1, origin.genesis_hash);
                    self.peers.push((entry.0.clone(), view));
                },
            }
            k = k + 1;
        }
        assert(known_peers@.take(known_peers@.len() as int) =~= known_peers@);
        proof { lemma_view_index_meaning(self.peers@, origin.node_id@); }
        match find_view(&self.peers, &origin.node_id) {
            Some(i) => {
                if origin.epoch.0 > self.peers[i].1.epoch.0 {
                    let key = self.peers[i].0.clone();
                    self.peers.set(i, (key, origin));
                }
            },
            None => {
                let key = origin.node_id.clone();
                self.peers.push((key, origin));
            },
        }
    }

    /// Every view: the node's own, then its peers'.
    pub fn node_views(&self) -> (r: Vec<&NodeView>)
        ensures
            r@.len() == self.peers@.len() + 1,
            *r@[0] == self.local,
            forall|i: int| 0 <= i < self.peers@.len() ==> *r@[i + 1] == self.peers@[i].1,
    {
        let mut out: Vec<&NodeView> = Vec::new();
        out.push(&self.local);
        let mut i: usize = 0;
        while i < self.peers.len()
            invariant
                i <= self.peers@.len(),
                out@.len() == i + 1,
                *out@[0] == self.local,
                forall|j: int| 0 <= j < i ==> *out@[j + 1] == self.peers@[j].1,
            decreases self.peers@.len() - i,
        {
            out.push(&self.peers[i].1);
            i = i + 1;
        }
        out
    }
}

/// The latest view of each node, by epoch.
#[derive(Debug)]
pub struct EpochDivergenceState {
    pub entries: Vec<(NodeId, NodeView)>,
}

/// The entries after taking in a view: a node's first view is kept, and a
/// later one replaces it only when its epoch is higher.
pub open spec fn insert_view(vs: Seq<(NodeId, NodeView)>, v: NodeView) -> Seq<(NodeId, NodeView)> {
    match view_index(vs, v.node_id@) {
        Some(i) => if v.epoch.0 > vs[i].1.epoch.0 { vs.update(i, (vs[i].0, v)) } else { vs },
        None => vs.push((v.node_id, v)),
    }
}

/// The entries after taking in views in order.
pub open spec fn insert_views(vs: Seq<(NodeId, NodeView)>, views: Seq<NodeView>) -> Seq<(NodeId, NodeView)>
    decreases views.len(),
{
    if views.len() == 0 { vs } else { insert_view(insert_views(vs, views.drop_last()), views.last()) }
}

proof fn lemma_view_index_meaning(vs: Seq<(NodeId, NodeView)>, node: Seq<char>)
    ensures
        view_index(vs, node) is None ==> forall|j: int| 0 <= j < vs.len() ==> (#[trigger] vs[j]).0@ != node,
        view_index(vs, node) matches Some(i) ==> 0 <= i < vs.len() && vs[i].0@ == node,
    decreases vs.len(),
{
    if vs.len() > 0 {
        let d = vs.drop_last();
        lemma_view_index_meaning(d, node);
        if vs.last().0@ != node {
            assert forall|j: int| 0 <= j < vs.len() && view_index(vs, node) is None implies (#[trigger] vs[j]).0@ != node by {
                if j < vs.len() - 1 {
                    assert(vs[j] == d[j]);
                }
            }
        }
    }
}

impl EpochDivergenceState {
    pub fn new() -> (r: Self)
        ensures
            r.entries@.len() == 0,
    {
        Self { entries: Vec::new() }
    }

    /// Takes in a node's view: a later epoch replaces what was known.
    pub fn insert(&mut self, view: NodeView)
        requires
            unique_nodes(old(self).entries@),
        ensures
            unique_nodes(final(self).entries@),
            final(self).entries@ == insert_view(old(self).entries@, view),
    {
        proof { lemma_view_index_meaning(self.entries@, view.node_id@); }
        match find_view(&self.entries, &view.node_id) {
            Some(i) => {
                if view.epoch.0 > self.entries[i].1.epoch.0 {
                    let key = self.entries[i].0.clone();
                    self.entries.set(i, (key, view));
                }
            },
            None => {
                let key = view.node_id.clone();
                self.entries.push((key, view));
            },
        }
    }

    /// The latest views of the given views' nodes.
    pub fn from_views(views: Vec<NodeView>) -> (r: Self)
        ensures
            unique_nodes(r.entries@),
            r.entries@ == insert_views(Seq::empty(), views@),
    {
        let mut state = Self::new();
        let mut i: usize = 0;
        while i < views.len()
            invariant
                i <= views@.len(),
                unique_nodes(state.entries@),
                state.entries@ == insert_views(Seq::empty(), views@.take(i as int)),
            decreases views@.len() - i,
        {
            assert(views@.take(i + 1).drop_last() =~= views@.take(i as int));
            state.insert(views[i].clone());
            i = i + 1;
        }
        assert(views@.take(views@.len() as int) =~= views@);
        state
    }

    /// The latest view of a node, if any.
    pub fn node_view(&self, node: &NodeId) -> (r: Option<&NodeView>)
        requires
            unique_nodes(self.entries@),
        ensures
            match view_index(self.entries@, node@) {
                Some(i) => r == Some(&self.entries@[i].1),
                None => r is None,
            },
    {
        match find_view(&self.entries, node) {
            Some(i) => Some(&self.entries[i].1),
            None => None,
        }
    }

    /// Whether every node started from the same genesis.
    pub fn all_genesis_match(&self) -> (r: bool)
        ensures
            r == forall|i: int, j: int| 0 <= i < self.entries@.len() && 0 <= j < self.entries@.len()
                ==> same_commitment(self.entries@[i].1.genesis_hash, self.entries@[j].1.genesis_hash),
    {
        if self.entries.len() == 0 {
            return true;
        }
        let first = self.entries[0].1.genesis_hash;
        let mut i: usize = 1;
        while i < self.entries.len()
            invariant
                1 <= i <= self.entries@.len(),
                first == self.entries@[0].1.genesis_hash,
                forall|j: int| 0 <= j < i ==> same_commitment(#[trigger] self.entries@[j].1.genesis_hash, first),
            decreases self.entries@.len() - i,
        {
            if !self.entries[i].1.genesis_hash.same_as(&first) {
                return false;
            }
            i = i + 1;
        }
        true
    }
}

/// Why two nodes cannot be aligned.
#[derive(Debug, Clone, Copy, PartialEq, Eq, Structural)]
pub enum IncompatibilityReason {
    GenesisMismatch,
    EpochCollision(EpochId),
}

/// What a node should do to align with another.
#[derive(Debug, Clone, PartialEq)]
pub enum AlignmentAction {
    NoAction,
    CatchUpTo(NodeId),
    RebaseOnto { fork_epoch: EpochId, remote_node: NodeId },
    DeclareMisalignment(IncompatibilityReason),
}

/// An action for a target node.
#[derive(Debug, Clone, PartialEq)]
pub struct AlignmentHint {
    pub target: NodeId,
    pub action: AlignmentAction,
}

impl AlignmentHint {
    pub fn no_action(target: NodeId) -> (r: Self)
        ensures
            r == (AlignmentHint { target, action: AlignmentAction::NoAction }),
    {
        Self { target, action: AlignmentAction::NoAction }
    }

    pub fn catch_up(target: NodeId, ahead: NodeId) -> (r: Self)
        ensures
            r == (AlignmentHint { target, action: AlignmentAction::CatchUpTo(ahead) }),
    {
        Self { target, action: AlignmentAction::CatchUpTo(ahead) }
    }

    pub fn rebase(target: NodeId, fork_epoch: EpochId, remote: NodeId) -> (r: Self)
        ensures
            r == (AlignmentHint { target, action: AlignmentAction::RebaseOnto { fork_epoch, remote_node: remote } }),
    {
        Self { target, action: AlignmentAction::RebaseOnto { fork_epoch, remote_node: remote } }
    }
}

/// A set of mutually aligned nodes.
#[derive(Debug, Clone, PartialEq)]
pub struct Cluster(pub Vec<NodeId>);

impl Cluster {
    pub fn contains(&self, node: &NodeId) -> (r: bool)
        ensures
            r == exists|i: int| 0 <= i < self.0@.len() && (#[trigger] self.0@[i])@ == node@,
    {
        let mut i: usize = 0;
        while i < self.0.len()
            invariant
                i <= self.0@.len(),
                forall|j: int| 0 <= j < i ==> (#[trigger] self.0@[j])@ != node@,
            decreases self.0@.len() - i,
        {
            if str_eq(self.0[i].0.as_str(), node.0.as_str()) {
                assert(self.0@[i as int]@ == node@);
                return true;
            }
            i = i + 1;
        }
        false
    }
}

/// The phase of a federation.
#[derive(Debug, Clone, PartialEq)]
pub enum FederationState {
    Stable,
    Divergent { fork_epochs: Vec<EpochId> },
    Partitioned { clusters: Vec<Cluster>, cross_cluster_forks: Vec<(NodeId, NodeId, EpochId)> },
    Collapsed { reason: String, incompatible_pairs: Vec<(NodeId, NodeId)> },
}

impl FederationState {
    pub fn is_stable(&self) -> (r: bool)
        ensures
            r == (*self is Stable),
    {
        matches!(self, FederationState::Stable)
    }

    pub fn is_collapsed(&self) -> (r: bool)
        ensures
            r == (*self is Collapsed),
    {
        matches!(self, FederationState::Collapsed { .. })
    }
}

/// A change of phase between two federation states.
#[derive(Debug, Clone, PartialEq)]
pub enum PhaseTransition {
    StableToStable,
    StableToDivergent { fork_epochs: Vec<EpochId>, nodes: Vec<NodeId> },
    DivergentToPartitioned { split_epochs: Vec<EpochId>, clusters: Vec<Cluster> },
    AnyToCollapsed { reason: String, incompatible_pairs: Vec<(NodeId, NodeId)> },
}

fn copy_epochs(v: &Vec<EpochId>) -> (r: Vec<EpochId>)
    ensures
        r@ == v@,
{
    let mut out: Vec<EpochId> = Vec::new();
    let mut i: usize = 0;
    while i < v.len()
        invariant
            i <= v@.len(),
            out@ == v@.take(i as int),
        decreases v@.len() - i,
    {
        out.push(v[i]);
        assert(v@.take(i + 1) =~= v@.take(i as int).push(v@[i as int]));
        i = i + 1;
    }
    assert(v@.take(v@.len() as int) =~= v@);
    out
}

fn copy_node_pairs(v: &Vec<(NodeId, NodeId)>) -> (r: Vec<(NodeId, NodeId)>)
    ensures
        r@ == v@,
{
    let mut out: Vec<(NodeId, NodeId)> = Vec::new();
    let mut i: usize = 0;
    while i < v.len()
        invariant
            i <= v@.len(),
            out@ == v@.take(i as int),
        decreases v@.len() - i,
    {
        out.push((v[i].0.clone(), v[i].1.clone()));
        assert(v@.take(i + 1) =~= v@.take(i as int).push(v@[i as int]));
        i = i + 1;
    }
    assert(v@.take(v@.len() as int) =~= v@);
    out
}

fn copy_clusters(v: &Vec<Cluster>) -> (r: Vec<Cluster>)
    ensures
        r@.len() == v@.len(),
        forall|i: int| 0 <= i < v@.len() ==> (#[trigger] r@[i]).0@ == v@[i].0@,
{
    let mut out: Vec<Cluster> = Vec::new();
    let mut i: usize = 0;
    while i < v.len()
        invariant
            i <= v@.len(),
            out@.len() == i,
            forall|j: int| 0 <= j < i ==> (#[trigger] out@[j]).0@ == v@[j].0@,
        decreases v@.len() - i,
    {
        out.push(Cluster(crate::base::clone_node_ids(&v[i].0)));
        i = i + 1;
    }
    out
}

/// The transition between two federation states: staying stable, becoming
/// divergent from stable (with the fork epochs), partitioning from
/// divergent (with the clusters), collapsing from any state (with the
/// reason and the incompatible pairs); any other pair counts as stable to
/// stable.
pub fn detect_transition(prev: &FederationState, curr: &FederationState) -> (r: PhaseTransition)
    ensures
        match (*prev, *curr) {
            (_, FederationState::Collapsed { reason, incompatible_pairs }) =>
                r matches PhaseTransition::AnyToCollapsed { reason: r2, incompatible_pairs: p2 }
                && r2@ == reason@ && p2@ == incompatible_pairs@,
            (FederationState::Stable, FederationState::Divergent { fork_epochs }) =>
                r matches PhaseTransition::StableToDivergent { fork_epochs: f2, nodes }
                && f2@ == fork_epochs@ && nodes@.len() == 0,
            (FederationState::Divergent { .. }, FederationState::Partitioned { clusters, .. }) =>
                r matches PhaseTransition::DivergentToPartitioned { split_epochs, clusters: c2 }
                && split_epochs@.len() == 0 && c2@.len() == clusters@.len()
                && forall|i: int| 0 <= i < clusters@.len() ==> (#[trigger] c2@[i]).0@ == clusters@[i].0@,
            _ => r is StableToStable,
        },
{
    match curr {
        FederationState::Collapsed { reason, incompatible_pairs } => {
            return PhaseTransition::AnyToCollapsed { reason: reason.clone(), incompatible_pairs: copy_node_pairs(incompatible_pairs) };
        },
        _ => {},
    }
    match (prev, curr) {
        (FederationState::Stable, FederationState::Stable) => PhaseTransition::StableToStable,
        (FederationState::Stable, FederationState::Divergent { fork_epochs }) => PhaseTransition::StableToDivergent {
            fork_epochs: copy_epochs(fork_epochs),
            nodes: Vec::new(),
        },
        (FederationState::Divergent { .. }, FederationState::Partitioned { clusters, .. }) => PhaseTransition::DivergentToPartitioned {
            split_epochs: Vec::new(),
            clusters: copy_clusters(clusters),
        },
        _ => PhaseTransition::StableToStable,
    }
}

/// An amount of capital.
#[derive(Debug, Clone, Copy, PartialEq, Eq, Structural)]
pub struct Capital(pub u64);

impl Capital {
    pub fn zero() -> (r: Self)
        ensures
            r == Capital(0),
    {
        Capital(0)
    }

    /// The sum, unless it overflows.
    pub fn checked_add(self, other: Capital) -> (r: Option<Capital>)
        ensures
            self.0 + other.0 <= u64::MAX ==> r == Some(Capital((self.0 + other.0) as u64)),
            self.0 + other.0 > u64::MAX ==> r is None,
    {
        match self.0.checked_add(other.0) {
            Some(v) => Some(Capital(v)),
            None => None,
        }
    }

    /// The difference, unless it would be negative.
    pub fn checked_sub(self, other: Capital) -> (r: Option<Capital>)
        ensures
            self.0 >= other.0 ==> r == Some(Capital((self.0 - other.0) as u64)),
            self.0 < other.0 ==> r is None,
    {
        match self.0.checked_sub(other.0) {
            Some(v) => Some(Capital(v)),
            None => None,
        }
    }
}

/// The outcome of settling a prediction.
#[derive(Debug, Clone)]
pub enum SettlementResult {
    Correct,
    Incorrect { predicted: CommitmentHash, actual: CommitmentHash },
    NotYetSettled,
    TargetEpochUnknown,
}

impl SettlementResult {
    /// How a claim that the commitment will be `claimed` settles against
    /// the commitment actually reached: correct when they are the same,
    /// incorrect (with both) when they differ, and not yet settled while
    /// none was reached.
    pub fn evaluate(claimed: &CommitmentHash, actual: Option<&CommitmentHash>) -> (r: Self)
        ensures
            r == match actual {
                Some(h) => if same_commitment(*h, *claimed) {
                    SettlementResult::Correct
                } else {
                    SettlementResult::Incorrect { predicted: *claimed, actual: *h }
                },
                None => SettlementResult::NotYetSettled,
            },
    {
        match actual {
            Some(h) => {
                if h.same_as(claimed) {
                    SettlementResult::Correct
                } else {
                    SettlementResult::Incorrect { predicted: *claimed, actual: *h }
                }
            },
            None => SettlementResult::NotYetSettled,
        }
    }
}

} // verus!
