//! Shared vocabulary of the runtime: identifiers, mutations, receipts,
//! epochs, election records and the reader/invariant interfaces.

use vstd::prelude::*;
use std::time::SystemTime;

verus! {

/// The character-sequence view of an optional string.
pub open spec fn opt_view(o: Option<String>) -> Option<Seq<char>> {
    match o {
        Some(s) => Some(s@),
        None => None,
    }
}

#[derive(Debug, Hash, PartialEq, Eq)]
pub struct ResourceId(pub String);

impl Clone for ResourceId {
    fn clone(&self) -> (r: Self)
        ensures
            r == *self,
    {
        ResourceId(self.0.clone())
    }
}

impl View for ResourceId {
    type V = Seq<char>;

    open spec fn view(&self) -> Seq<char> {
        self.0@
    }
}

#[derive(Debug, Hash, PartialEq, Eq)]
pub struct AgentId(pub String);

impl Clone for AgentId {
    fn clone(&self) -> (r: Self)
        ensures
            r == *self,
    {
        AgentId(self.0.clone())
    }
}

#[derive(Debug, Hash, PartialEq, Eq)]
pub struct MutationId(pub String);

impl Clone for MutationId {
    fn clone(&self) -> (r: Self)
        ensures
            r == *self,
    {
        MutationId(self.0.clone())
    }
}

impl View for MutationId {
    type V = Seq<char>;

    open spec fn view(&self) -> Seq<char> {
        self.0@
    }
}

#[derive(Debug)]
pub enum MutationOp {
    Insert { resource_id: ResourceId, payload: String },
    Delete { resource_id: ResourceId },
}

impl MutationOp {
    /// The resource that the operation writes.
    pub open spec fn target(&self) -> Seq<char> {
        match self {
            MutationOp::Insert { resource_id, .. } => resource_id@,
            MutationOp::Delete { resource_id } => resource_id@,
        }
    }
}

impl Clone for MutationOp {
    fn clone(&self) -> (r: Self)
        ensures
            r == *self,
    {
        match self {
            MutationOp::Insert { resource_id, payload } => MutationOp::Insert {
                resource_id: resource_id.clone(),
                payload: payload.clone(),
            },
            MutationOp::Delete { resource_id } => MutationOp::Delete {
                resource_id: resource_id.clone(),
            },
        }
    }
}

#[derive(Debug)]
pub struct KnowledgeMutation {
    pub mutation_id: MutationId,
    pub actor: AgentId,
    pub op: MutationOp,
    pub timestamp: SystemTime,
}

impl Clone for KnowledgeMutation {
    fn clone(&self) -> (r: Self)
        ensures
            r == *self,
    {
        KnowledgeMutation {
            mutation_id: self.mutation_id.clone(),
            actor: self.actor.clone(),
            op: self.op.clone(),
            timestamp: self.timestamp,
        }
    }
}

#[derive(Debug)]
pub struct CommitReceipt {
    pub tx_id: String,
    pub actor: AgentId,
    pub timestamp: SystemTime,
    pub invariant_hash: String,
}

impl Clone for CommitReceipt {
    fn clone(&self) -> (r: Self)
        ensures
            r == *self,
    {
        CommitReceipt {
            tx_id: self.tx_id.clone(),
            actor: self.actor.clone(),
            timestamp: self.timestamp,
            invariant_hash: self.invariant_hash.clone(),
        }
    }
}

/// An epoch number; policy changes, revocations and certificate validity
/// are epoch-relative.
#[derive(Debug, Clone, Copy, Hash, PartialEq, Eq, PartialOrd, Ord, Structural)]
pub struct EpochId(pub u64);

/// Lamport logical time.
#[derive(Debug, Clone, Copy, Hash, PartialEq, Eq, PartialOrd, Ord, Structural)]
pub struct LogicalTime {
    pub lamport: u64,
}

impl LogicalTime {
    pub fn new(lamport: u64) -> (r: Self)
        ensures
            r.lamport == lamport,
    {
        Self { lamport }
    }
}

/// Binds temporal context (epoch, sequence, logical time) to a mutation.
#[derive(Debug, Clone, Copy)]
pub struct ExecutionEnvelope {
    pub epoch: EpochId,
    pub sequence: u64,
    pub logical_time: LogicalTime,
}

impl ExecutionEnvelope {
    pub fn new(epoch: EpochId, sequence: u64, logical_time: LogicalTime) -> (r: Self)
        ensures
            r.epoch == epoch,
            r.sequence == sequence,
            r.logical_time == logical_time,
    {
        Self { epoch, sequence, logical_time }
    }
}

/// Epoch lifecycle: Active, then Locked, then Committed.
#[derive(Debug, Clone, Copy, PartialEq, Eq, Structural)]
pub enum EpochState {
    Active,
    Locked,
    Committed,
}

/// A request to commit an epoch transition.
pub struct CommitRequest {
    pub epoch: EpochId,
    pub final_sequence: u64,
    pub state_root: u64,
}

/// A node's acknowledgement in a commit quorum.
pub struct CommitAck {
    pub node_id: String,
    pub epoch: EpochId,
    pub state_root_match: bool,
}

/// The outcome of an epoch commit.
#[derive(Debug, Clone, Copy)]
pub struct CommitResult {
    pub epoch: EpochId,
    pub success: bool,
    pub ack_count: u32,
    pub threshold: u32,
}

impl CommitResult {
    pub fn new(epoch: EpochId, success: bool, ack_count: u32, threshold: u32) -> (r: Self)
        ensures
            r.epoch == epoch,
            r.success == success,
            r.ack_count == ack_count,
            r.threshold == threshold,
    {
        Self { epoch, success, ack_count, threshold }
    }
}

/// A node identifier in a distributed context.
#[derive(Debug, Hash, PartialEq, Eq, PartialOrd, Ord)]
pub struct NodeId(pub String);

impl Clone for NodeId {
    fn clone(&self) -> (r: Self)
        ensures
            r == *self,
    {
        NodeId(self.0.clone())
    }
}

impl View for NodeId {
    type V = Seq<char>;

    open spec fn view(&self) -> Seq<char> {
        self.0@
    }
}

/// Copies a list of node identifiers.
pub fn clone_node_ids(v: &Vec<NodeId>) -> (r: Vec<NodeId>)
    ensures
        r@ == v@,
{
    let mut r: Vec<NodeId> = Vec::new();
    let mut i: usize = 0;
    while i < v.len()
        invariant
            i <= v@.len(),
            r@ == v@.subrange(0, i as int),
        decreases v@.len() - i,
    {
        r.push(v[i].clone());
        i = i + 1;
    }
    assert(v@.subrange(0, v@.len() as int) =~= v@);
    r
}

/// A node's proposal for the next epoch.
#[derive(Debug)]
pub struct EpochProposal {
    pub epoch: EpochId,
    pub policy_snapshot: u64,
    pub min_sequence: u64,
    pub cutoff_time: LogicalTime,
    pub proposer: NodeId,
    pub trust_weight: u64,
}

impl Clone for EpochProposal {
    fn clone(&self) -> (r: Self)
        ensures
            r == *self,
    {
        EpochProposal {
            epoch: self.epoch,
            policy_snapshot: self.policy_snapshot,
            min_sequence: self.min_sequence,
            cutoff_time: self.cutoff_time,
            proposer: self.proposer.clone(),
            trust_weight: self.trust_weight,
        }
    }
}

/// A quorum of nodes supporting the same epoch proposal.
#[derive(Debug)]
pub struct EpochQuorum {
    pub epoch: EpochId,
    pub supporters: Vec<NodeId>,
    pub aggregate_score: u64,
    pub policy_snapshot: u64,
}

impl Clone for EpochQuorum {
    fn clone(&self) -> (r: Self)
        ensures
            r.epoch == self.epoch,
            r.supporters@ == self.supporters@,
            r.aggregate_score == self.aggregate_score,
            r.policy_snapshot == self.policy_snapshot,
    {
        EpochQuorum {
            epoch: self.epoch,
            supporters: clone_node_ids(&self.supporters),
            aggregate_score: self.aggregate_score,
            policy_snapshot: self.policy_snapshot,
        }
    }
}

/// The result of an election round.
#[derive(Debug)]
pub enum ElectionResult {
    NoConsensus,
    Candidate(EpochQuorum),
}

/// A signature over a candidate bundle.
#[derive(Debug, PartialEq, Eq)]
pub struct Signature(pub Vec<u8>);

/// A node's locally finalized election result, signed for exchange.
#[derive(Debug)]
pub struct EpochCandidateBundle {
    pub node_id: NodeId,
    pub epoch: EpochId,
    pub quorum: EpochQuorum,
    pub aggregate_score: u64,
    pub signature: Signature,
}

/// A globally agreed epoch after meta-election reconciliation.
#[derive(Debug)]
pub struct GlobalEpochAgreement {
    pub epoch: EpochId,
    pub quorum: EpochQuorum,
    pub supporting_nodes: Vec<NodeId>,
    pub global_score: u64,
}

/// The result of a meta-election round.
#[derive(Debug)]
pub enum MetaElectionResult {
    NoConsensus,
    Agreement(GlobalEpochAgreement),
}

/// A message carrying a candidate bundle between nodes.
#[derive(Debug)]
pub struct PRN2Message {
    pub from: NodeId,
    pub bundle: EpochCandidateBundle,
    pub ttl_epoch: EpochId,
}

/// Why an invariant rejected a proposal.
#[derive(Debug)]
pub enum InvariantViolation {
    Contradiction { reason: String },
    CircularDependency { path: Vec<ResourceId> },
    Custom(String),
}

/// Read access to a world view of resources.
pub trait EpistemicReader {
    /// The current content of a resource, if it exists.
    spec fn spec_read(&self, id: Seq<char>) -> Option<Seq<char>>;

    fn read_unit(&self, id: &ResourceId) -> (r: Option<String>)
        ensures
            opt_view(r) == self.spec_read(id@),
    ;

    fn unit_exists(&self, id: &ResourceId) -> (r: bool)
        ensures
            r == self.spec_read(id@) is Some,
    ;
}

/// What an invariant sees: the current world view and the proposal.
pub struct InvariantContext<'a, R: EpistemicReader> {
    pub current_world_view: &'a R,
    pub proposal: &'a KnowledgeMutation,
}

/// A rule that every admitted mutation must satisfy.
pub trait EpistemicInvariant {
    fn name(&self) -> &str;

    fn validate<'a, R: EpistemicReader>(&self, ctx: &InvariantContext<'a, R>) -> Result<(), InvariantViolation>;
}

} // verus!
