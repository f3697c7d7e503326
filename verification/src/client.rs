//! A client over an embedded runtime: it gates mutations through the proof
//! gate, authorizes them through a trust policy and advances epochs by
//! election.

pub mod config;
pub mod error;
pub mod mutation;
pub mod query;

use vstd::prelude::*;
use vstd::string::*;
use crate::base::{
    AgentId, CommitReceipt, ElectionResult, EpistemicReader, EpochId, EpochProposal, ExecutionEnvelope,
    KnowledgeMutation, LogicalTime, NodeId, ResourceId,
};
use crate::client::config::{ClientConfig, ClientMode};
use crate::client::error::{HistoryEntry, StatsSnapshot, VantageError};
use crate::client::mutation::MutationBuilder;
use crate::client::query::QueryBuilder;
use crate::pek::{
    canonical_id, noncanonical_message, noncanonical_tx_message, first_noncanonical, EpistemicExecutor,
    MutationRequest, PEKError, PEKStats, ProofCertificate, ProofGate, SystemProof, TransactionRequest,
};
use crate::prn::ElectionEngine;
use crate::runtime::{rev_view, ExecutionPayload, TemporalState, VantageRuntime};
use crate::text::{bump, decimal, u64_to_decimal};
use crate::trust::{AuthorizedMutation, IdentityId, PolicyDigest, StaticTrustPolicy, TrustEvaluator};

verus! {

/// The message of an operation a remote client cannot do yet.
pub open spec fn remote_message() -> Seq<char> {
    "Remote mode not yet implemented"@
}

/// The message of an advanced epoch.
pub open spec fn advance_message(from: u64, to: u64) -> Seq<char> {
    "Epoch transitioned: "@ + decimal(from as nat) + " \u{2192} "@ + decimal(to as nat)
}

/// A client of the runtime.
pub struct VantageClient {
    config: ClientConfig,
    runtime: Option<VantageRuntime>,
    stats: Option<PEKStats>,
    trust: Option<StaticTrustPolicy>,
    engine: Option<ElectionEngine>,
    sequence: u64,
    epoch: u64,
}

impl VantageClient {
    pub closed spec fn spec_config(&self) -> ClientConfig {
        self.config
    }

    /// The embedded runtime.
    pub closed spec fn spec_runtime(&self) -> VantageRuntime {
        self.runtime->0
    }

    /// The admission counters of the embedded gate.
    pub closed spec fn spec_stats(&self) -> PEKStats {
        self.stats->0
    }

    pub closed spec fn spec_sequence(&self) -> u64 {
        self.sequence
    }

    pub closed spec fn spec_epoch(&self) -> u64 {
        self.epoch
    }

    /// An embedded client holds its runtime, counters, trust policy and
    /// election engine, its runtime at the client's epoch, accepting
    /// payloads, and not ahead of the client's sequence; a remote one holds
    /// none.
    pub closed spec fn wf(&self) -> bool {
        match self.config.mode {
            ClientMode::Embedded => self.runtime is Some && self.stats is Some && self.trust is Some && self.engine is Some
                && self.trust->0.trusted_issuer@ == self.config.identity@
                && self.trust->0.revocation.spec_revoked() == Set::<Seq<char>>::empty()
                && self.engine->0.spec_node_id()@ == self.config.identity@
                && self.engine->0.weight(self.config.identity@) == 100
                && self.engine->0.spec_threshold() == 1
                && self.runtime->0.spec_temporal().current_epoch == EpochId(self.epoch)
                && self.runtime->0.spec_temporal().epoch_state == crate::base::EpochState::Active
                && self.runtime->0.spec_temporal().last_sequence <= self.sequence,
            ClientMode::Remote { .. } => self.runtime is None && self.stats is None && self.trust is None && self.engine is None,
        }
    }

    /// A client of the given configuration, at epoch one and sequence zero;
    /// an embedded one starts a runtime, counters, a trust policy trusting
    /// its identity, and an election engine where its identity weighs 100.
    pub fn new(config: ClientConfig) -> (r: Self)
        ensures
            r.wf(),
            r.spec_config() == config,
            r.spec_sequence() == 0,
            r.spec_epoch() == 1,
            config.mode is Embedded ==> {
                &&& r.spec_runtime().spec_temporal() == TemporalState::new_spec(EpochId(1))
                &&& r.spec_runtime().spec_index().history@.len() == 0
                &&& r.spec_stats() == (PEKStats { admitted_count: 0, rejected_count: 0, advisory_warnings: 0 })
            },
    {
        match &config.mode {
            ClientMode::Embedded => {
                let runtime = VantageRuntime::new();
                let stats = PEKStats::new();
                let trust = StaticTrustPolicy::new(
                    IdentityId(config.identity.clone()),
                    PolicyDigest(String::from_str("policy-v1")),
                );
                let mut engine = ElectionEngine::new(NodeId(config.identity.clone()), 1);
                engine.set_weight(NodeId(config.identity.clone()), 100);
                Self {
                    config,
                    runtime: Some(runtime),
                    stats: Some(stats),
                    trust: Some(trust),
                    engine: Some(engine),
                    sequence: 0,
                    epoch: 1,
                }
            },
            ClientMode::Remote { .. } => Self {
                config,
                runtime: None,
                stats: None,
                trust: None,
                engine: None,
                sequence: 0,
                epoch: 1,
            },
        }
    }

    /// A builder of a mutation on this client.
    pub fn mutate(&mut self) -> (r: MutationBuilder<'_>)
        ensures
            r.spec_client() == *old(self),
            r.spec_resource()@ == Seq::<char>::empty(),
            r.spec_mutation_id() is None,
            r.spec_payload() is None,
            !r.spec_is_delete(),
    {
        MutationBuilder::new(self)
    }

    /// A builder of a query on this client.
    pub fn query(&self) -> (r: QueryBuilder<'_>)
        ensures
            r.spec_client() == *self,
            r.spec_resource()@ == Seq::<char>::empty(),
    {
        QueryBuilder::new(self)
    }

    pub fn epoch(&self) -> (r: EpochId)
        ensures
            r == EpochId(self.spec_epoch()),
    {
        EpochId(self.epoch)
    }

    fn next_envelope(&mut self) -> (r: ExecutionEnvelope)
        requires
            old(self).sequence < u64::MAX,
        ensures
            final(self).sequence == old(self).sequence + 1,
            r == (ExecutionEnvelope {
                epoch: EpochId(old(self).epoch),
                sequence: final(self).sequence,
                logical_time: LogicalTime { lamport: final(self).sequence },
            }),
            *final(self) == (VantageClient { sequence: final(self).sequence, ..*old(self) }),
    {
        self.sequence = self.sequence + 1;
        ExecutionEnvelope::new(EpochId(self.epoch), self.sequence, LogicalTime::new(self.sequence))
    }

    /// The outcome of committing `m` on a client: a remote client refuses
    /// without change; an embedded one refuses a non-canonical identifier
    /// under the strict policy, counting a rejection, and otherwise counts
    /// an admission and answers what its runtime does with the mutation; a
    /// committed mutation advances the sequence.
    pub open spec fn execute_outcome(before: VantageClient, after: VantageClient, m: KnowledgeMutation, r: Result<CommitReceipt, VantageError>) -> bool {
        let stats = before.spec_stats();
        &&& after.wf()
        &&& after.spec_config() == before.spec_config()
        &&& after.spec_epoch() == before.spec_epoch()
        &&& before.spec_config().mode is Remote ==> {
            &&& r matches Err(VantageError::Internal(msg)) && msg@ == remote_message()
            &&& after == before
        }
        &&& before.spec_config().mode is Embedded ==> if before.spec_config().policy == crate::pek::ProofPolicy::StrictCanonical
            && !canonical_id(m.mutation_id@) {
            &&& r matches Err(VantageError::MutationRejected(PEKError::PolicyViolation(msg)))
                && msg@ == noncanonical_message(m.mutation_id@)
            &&& after.spec_runtime() == before.spec_runtime()
            &&& after.spec_stats() == (PEKStats { rejected_count: bump(stats.rejected_count, 1), ..stats })
            &&& after.spec_sequence() == before.spec_sequence()
        } else {
            &&& match r {
                Ok(receipt) => before.spec_runtime().spec_execute(m, after.spec_runtime(), Ok(receipt))
                    && after.spec_sequence() == before.spec_sequence() + 1,
                Err(VantageError::MutationRejected(PEKError::RuntimeError(e))) =>
                    before.spec_runtime().spec_execute(m, after.spec_runtime(), Err(e))
                    && after.spec_sequence() == before.spec_sequence(),
                Err(_) => false,
            }
            &&& after.spec_stats() == (PEKStats { admitted_count: bump(stats.admitted_count, 1), ..stats })
        }
    }

    /// Commits one mutation through the proof gate under the client's
    /// policy, attested as a test proof; a committed mutation advances the
    /// client's sequence.
    pub fn execute(&mut self, mutation: KnowledgeMutation) -> (r: Result<CommitReceipt, VantageError>)
        requires
            old(self).wf(),
            old(self).spec_sequence() < u64::MAX,
        ensures
            final(self).wf(),
            final(self).spec_config() == old(self).spec_config(),
            final(self).spec_epoch() == old(self).spec_epoch(),
            old(self).spec_config().mode is Remote ==> {
                &&& r matches Err(VantageError::Internal(m)) && m@ == remote_message()
                &&& *final(self) == *old(self)
            },
            old(self).spec_config().mode is Embedded ==> {
                let m = mutation;
                let before = old(self).spec_stats();
                if old(self).spec_config().policy == crate::pek::ProofPolicy::StrictCanonical && !canonical_id(m.mutation_id@) {
                    &&& r matches Err(VantageError::MutationRejected(PEKError::PolicyViolation(msg)))
                        && msg@ == noncanonical_message(m.mutation_id@)
                    &&& final(self).spec_runtime() == old(self).spec_runtime()
                    &&& final(self).spec_stats() == (PEKStats { rejected_count: bump(before.rejected_count, 1), ..before })
                    &&& final(self).spec_sequence() == old(self).spec_sequence()
                } else {
                    &&& match r {
                        Ok(receipt) => old(self).spec_runtime().spec_execute(m, final(self).spec_runtime(), Ok(receipt))
                            && final(self).spec_sequence() == old(self).spec_sequence() + 1,
                        Err(VantageError::MutationRejected(PEKError::RuntimeError(e))) =>
                            old(self).spec_runtime().spec_execute(m, final(self).spec_runtime(), Err(e))
                            && final(self).spec_sequence() == old(self).spec_sequence(),
                        Err(_) => false,
                    }
                    &&& final(self).spec_stats() == (PEKStats { admitted_count: bump(before.admitted_count, 1), ..before })
                }
            },
    {
        match &self.config.mode {
            ClientMode::Embedded => {},
            ClientMode::Remote { .. } => {
                return Err(VantageError::Internal(String::from_str("Remote mode not yet implemented")));
            },
        }
        let policy = self.config.policy;
        let mut runtime = match self.runtime.take() {
            Some(rt) => rt,
            None => VantageRuntime::new(),
        };
        let mut stats = match self.stats.take() {
            Some(s) => s,
            None => PEKStats::new(),
        };
        let req = MutationRequest::new(mutation, SystemProof::Test);
        let result = ProofGate::commit(req, policy, &mut runtime, &mut stats);
        self.runtime = Some(runtime);
        self.stats = Some(stats);
        match result {
            Ok(receipt) => {
                self.sequence = self.sequence + 1;
                Ok(receipt)
            },
            Err(e) => Err(VantageError::MutationRejected(e)),
        }
    }

    /// Commits a batch atomically through the proof gate; a committed batch
    /// advances the client's sequence by its size.
    pub fn execute_batch(&mut self, mutations: Vec<KnowledgeMutation>) -> (r: Result<Vec<CommitReceipt>, VantageError>)
        requires
            old(self).wf(),
            old(self).spec_sequence() + mutations@.len() <= u64::MAX,
        ensures
            final(self).wf(),
            final(self).spec_config() == old(self).spec_config(),
            final(self).spec_epoch() == old(self).spec_epoch(),
            old(self).spec_config().mode is Remote ==> {
                &&& r matches Err(VantageError::Internal(m)) && m@ == remote_message()
                &&& *final(self) == *old(self)
            },
            old(self).spec_config().mode is Embedded ==> {
                let ms = mutations@;
                let before = old(self).spec_stats();
                if old(self).spec_config().policy == crate::pek::ProofPolicy::StrictCanonical && first_noncanonical(ms) is Some {
                    &&& r matches Err(VantageError::MutationRejected(PEKError::PolicyViolation(msg)))
                        && msg@ == noncanonical_tx_message(ms[first_noncanonical(ms)->0].mutation_id@)
                    &&& final(self).spec_runtime() == old(self).spec_runtime()
                    &&& final(self).spec_stats() == (PEKStats { rejected_count: bump(before.rejected_count, 1), ..before })
                    &&& final(self).spec_sequence() == old(self).spec_sequence()
                } else {
                    &&& match r {
                        Ok(receipts) => old(self).spec_runtime().spec_execute_transaction(ms, final(self).spec_runtime(), Ok(receipts))
                            && final(self).spec_sequence() == old(self).spec_sequence() + receipts@.len(),
                        Err(VantageError::MutationRejected(PEKError::RuntimeError(e))) =>
                            old(self).spec_runtime().spec_execute_transaction(ms, final(self).spec_runtime(), Err(e))
                            && final(self).spec_sequence() == old(self).spec_sequence(),
                        Err(_) => false,
                    }
                    &&& final(self).spec_stats() == (PEKStats { admitted_count: bump(before.admitted_count, ms.len() as u64), ..before })
                }
            },
    {
        match &self.config.mode {
            ClientMode::Embedded => {},
            ClientMode::Remote { .. } => {
                return Err(VantageError::Internal(String::from_str("Remote mode not yet implemented")));
            },
        }
        let ghost ms = mutations@;
        let policy = self.config.policy;
        let mut runtime = match self.runtime.take() {
            Some(rt) => rt,
            None => VantageRuntime::new(),
        };
        let mut stats = match self.stats.take() {
            Some(s) => s,
            None => PEKStats::new(),
        };
        let req = TransactionRequest::new(mutations, SystemProof::Test);
        let result = ProofGate::commit_transaction(req, policy, &mut runtime, &mut stats);
        self.runtime = Some(runtime);
        self.stats = Some(stats);
        match result {
            Ok(receipts) => {
                proof {
                    if receipts@.len() != ms.len() {
                        assert(VantageRuntime::transaction_outcome(old(self).spec_runtime().spec_index(),
                            self.spec_runtime().spec_index(), ms, Ok(receipts)));
                    }
                }
                self.sequence = self.sequence + receipts.len() as u64;
                Ok(receipts)
            },
            Err(e) => Err(VantageError::MutationRejected(e)),
        }
    }


    /// The envelope of the next authorized payload.
    pub open spec fn next_envelope_of(c: VantageClient) -> ExecutionEnvelope {
        ExecutionEnvelope {
            epoch: EpochId(c.spec_epoch()),
            sequence: (c.spec_sequence() + 1) as u64,
            logical_time: LogicalTime { lamport: (c.spec_sequence() + 1) as u64 },
        }
    }

    /// Commits one mutation by the authorized path: under the next envelope
    /// of the client's epoch, with a certificate of the client's own
    /// authority, through the runtime's authorized admission.
    pub fn execute_authorized(&mut self, mutation: KnowledgeMutation) -> (r: Result<CommitReceipt, VantageError>)
        requires
            old(self).wf(),
            old(self).spec_sequence() < u64::MAX,
        ensures
            final(self).wf(),
            final(self).spec_config() == old(self).spec_config(),
            final(self).spec_epoch() == old(self).spec_epoch(),
            old(self).spec_config().mode is Remote ==> {
                &&& r matches Err(VantageError::Internal(m)) && m@ == remote_message()
                &&& *final(self) == *old(self)
            },
            old(self).spec_config().mode is Embedded ==> {
                let payloads = seq![ExecutionPayload { mutation, envelope: Self::next_envelope_of(*old(self)) }];
                &&& r is Ok <==> !crate::runtime::has_conflict(old(self).spec_runtime().spec_index(), seq![mutation])
                &&& final(self).spec_sequence() == old(self).spec_sequence() + 1
                &&& final(self).spec_stats() == old(self).spec_stats()
                &&& match r {
                    Ok(receipt) => exists|v: Vec<CommitReceipt>| VantageRuntime::authorized_outcome(
                        old(self).spec_runtime(), final(self).spec_runtime(), payloads, Ok(v))
                        && v@.len() == 1 && receipt == v@[0],
                    Err(VantageError::Internal(e)) => VantageRuntime::authorized_outcome(
                        old(self).spec_runtime(), final(self).spec_runtime(), payloads, Err(e)),
                    Err(_) => false,
                }
            },
    {
        match &self.config.mode {
            ClientMode::Embedded => {},
            ClientMode::Remote { .. } => {
                return Err(VantageError::Internal(String::from_str("Remote mode not yet implemented")));
            },
        }
        let ghost m = mutation;
        let envelope = self.next_envelope();
        let mut claim = String::from_str("claim_");
        claim.append(mutation.mutation_id.0.as_str());
        let hash: [u8; 32] = [1u8; 32];
        assert(!crate::pek::is_zero_hash(hash@)) by {
            assert(hash@[0] == 1);
        }
        let cert = ProofCertificate::new(claim, hash, 1);
        let verified = match cert.verify() {
            Ok(v) => v,
            Err(e) => {
                return Err(VantageError::MutationRejected(e));
            },
        };
        let authorized = match &self.trust {
            Some(t) => match t.authorize(verified) {
                Ok(a) => a,
                Err(e) => {
                    return Err(VantageError::MutationRejected(PEKError::PolicyViolation(e)));
                },
            },
            None => {
                return Err(VantageError::Internal(String::from_str("Remote mode not yet implemented")));
            },
        };
        let auth_mutation = AuthorizedMutation::new(mutation, authorized);
        let payload = ExecutionPayload::new(auth_mutation.mutation, envelope);
        let mut batch: Vec<ExecutionPayload> = Vec::new();
        batch.push(payload);
        let mut runtime = match self.runtime.take() {
            Some(rt) => rt,
            None => VantageRuntime::new(),
        };
        let ghost rt0 = runtime;
        assert(batch@ =~= seq![ExecutionPayload { mutation: m, envelope: Self::next_envelope_of(*old(self)) }]);
        proof {
            let t = rt0.spec_temporal();
            let es = batch@.map_values(|p: ExecutionPayload| p.envelope);
            assert(es =~= seq![Self::next_envelope_of(*old(self))]);
            assert(es.drop_first() =~= Seq::<ExecutionEnvelope>::empty());
            assert(rt0 == old(self).spec_runtime());
            assert(t.current_epoch == es[0].epoch);
            assert(es[0].sequence > t.last_sequence);
            assert(crate::runtime::envelope_scan(es.drop_first(), t.current_epoch, es[0].sequence)
                == (0nat, es[0].sequence));
            assert(crate::runtime::envelope_scan(es, t.current_epoch, t.last_sequence)
                == (1nat, (old(self).spec_sequence() + 1) as u64));
            assert(batch@.map_values(|p: ExecutionPayload| p.mutation) =~= seq![m]);
            assert(!crate::tx::has_duplicate_ids(seq![m]));
        }
        let result = runtime.commit_authorized(batch);
        self.runtime = Some(runtime);
        match result {
            Ok(receipts) => {
                let ghost v = receipts;
                proof {
                    let payloads = seq![ExecutionPayload { mutation: m, envelope: Self::next_envelope_of(*old(self)) }];
                    assert(payloads.map_values(|p: ExecutionPayload| p.mutation) =~= seq![m]);
                    assert(!crate::tx::has_duplicate_ids(seq![m]));
                }
                let mut receipts = receipts;
                match receipts.pop() {
                    Some(receipt) => Ok(receipt),
                    None => Err(VantageError::Internal(String::from_str("Empty receipt"))),
                }
            },
            Err(e) => Err(VantageError::Internal(e)),
        }
    }

    /// Advances to the next epoch: the client's own proposal must win the
    /// election (it does once the client has a sequence), then the
    /// runtime's epoch is locked and committed, and the client moves to
    /// the next epoch with its sequence reset.
    pub fn advance_epoch(&mut self) -> (r: Result<String, VantageError>)
        requires
            old(self).wf(),
            old(self).spec_epoch() < u64::MAX,
        ensures
            final(self).wf(),
            final(self).spec_config() == old(self).spec_config(),
            final(self).spec_stats() == old(self).spec_stats(),
            old(self).spec_config().mode is Remote ==> {
                &&& r matches Err(VantageError::Internal(m)) && m@ == remote_message()
                &&& *final(self) == *old(self)
            },
            old(self).spec_config().mode is Embedded ==> {
                let t = old(self).spec_runtime().spec_temporal();
                let next = (old(self).spec_epoch() + 1) as u64;
                if old(self).spec_sequence() == 0 {
                    &&& r matches Err(VantageError::EpochError(m)) && m@ == "No epoch consensus"@
                    &&& *final(self) == *old(self)
                } else if t.epoch_state != crate::base::EpochState::Active {
                    &&& r matches Err(VantageError::EpochError(m)) && m@ == crate::runtime::lock_refusal(t.current_epoch, t.epoch_state)
                    &&& final(self).spec_runtime() == old(self).spec_runtime()
                    &&& final(self).spec_epoch() == old(self).spec_epoch()
                    &&& final(self).spec_sequence() == old(self).spec_sequence()
                } else {
                    &&& r matches Ok(m) && m@ == advance_message(old(self).spec_epoch(), next)
                    &&& final(self).spec_epoch() == next
                    &&& final(self).spec_sequence() == 0
                    &&& final(self).spec_runtime().spec_temporal() == TemporalState::new_spec(EpochId(next))
                    &&& final(self).spec_runtime().spec_index() == old(self).spec_runtime().spec_index()
                }
            },
    {
        match &self.config.mode {
            ClientMode::Embedded => {},
            ClientMode::Remote { .. } => {
                return Err(VantageError::Internal(String::from_str("Remote mode not yet implemented")));
            },
        }
        let engine = match &self.engine {
            Some(e) => e,
            None => {
                return Err(VantageError::Internal(String::from_str("Remote mode not yet implemented")));
            },
        };
        let current = EpochId(self.epoch);
        let next = EpochId(self.epoch + 1);
        let proposal = EpochProposal {
            epoch: next,
            policy_snapshot: 1,
            min_sequence: self.sequence,
            cutoff_time: LogicalTime::new(self.sequence),
            proposer: engine.node_id().clone(),
            trust_weight: 100,
        };
        let ghost p = proposal;
        let mut proposals: Vec<EpochProposal> = Vec::new();
        proposals.push(proposal);
        proof {
            let ws = engine.spec_weights();
            assert(proposals@ =~= seq![p]);
            assert(seq![p].drop_last() =~= Seq::<EpochProposal>::empty());
            let vs = crate::prn::valid_proposals(ws, seq![p], current);
            assert(p.proposer@ == self.config.identity@);
            assert(crate::prn::weight_in(ws, p.proposer@) == 100);
            assert(crate::prn::valid_proposals(ws, Seq::<EpochProposal>::empty(), current) =~= Seq::<EpochProposal>::empty());
            assert(crate::prn::total_score(ws, Seq::<EpochProposal>::empty()) == 0);
            if self.sequence == 0 {
                assert(vs =~= Seq::<EpochProposal>::empty());
            } else {
                assert(vs =~= seq![p]);
                assert(vs.drop_last() =~= Seq::<EpochProposal>::empty());
                assert(crate::prn::group_supporters(Seq::<EpochProposal>::empty(), p.epoch, 1) =~= Seq::<NodeId>::empty());
                assert(crate::prn::group_supporters(vs, p.epoch, 1) =~= seq![p.proposer]);
                assert(crate::prn::total_score(ws, vs) <= 600);
                assert(crate::prn::group_qualifies(vs, vs[0].epoch, vs[0].policy_snapshot, 1));
            }
        }
        let result = engine.run_election(proposals, current);
        match result {
            ElectionResult::Candidate(_quorum) => {},
            ElectionResult::NoConsensus => {
                return Err(VantageError::EpochError(String::from_str("No epoch consensus")));
            },
        }
        let mut runtime = match self.runtime.take() {
            Some(rt) => rt,
            None => VantageRuntime::new(),
        };
        match runtime.lock_epoch() {
            Ok(_) => {},
            Err(e) => {
                self.runtime = Some(runtime);
                return Err(VantageError::EpochError(e));
            },
        }
        match runtime.commit_epoch(next) {
            Ok(_) => {},
            Err(e) => {
                self.runtime = Some(runtime);
                return Err(VantageError::EpochError(e));
            },
        }
        self.runtime = Some(runtime);
        self.epoch = next.0;
        self.sequence = 0;
        let mut msg = String::from_str("Epoch transitioned: ");
        let a = u64_to_decimal(current.0);
        msg.append(a.as_str());
        msg.append(" \u{2192} ");
        let b = u64_to_decimal(next.0);
        msg.append(b.as_str());
        Ok(msg)
    }

    /// The client's admission counters.
    pub fn stats(&self) -> (r: Result<StatsSnapshot, VantageError>)
        requires
            self.wf(),
        ensures
            self.spec_config().mode is Remote ==> (r matches Err(VantageError::Internal(m)) && m@ == remote_message()),
            self.spec_config().mode is Embedded ==> r == Ok::<StatsSnapshot, VantageError>(StatsSnapshot {
                admitted: self.spec_stats().admitted_count,
                rejected: self.spec_stats().rejected_count,
                advisory_warnings: self.spec_stats().advisory_warnings,
            }),
    {
        match &self.stats {
            Some(s) => Ok(StatsSnapshot {
                admitted: s.admitted_count,
                rejected: s.rejected_count,
                advisory_warnings: s.advisory_warnings,
            }),
            None => Err(VantageError::Internal(String::from_str("Remote mode not yet implemented"))),
        }
    }

    /// The current content of a resource.
    pub fn read_unit(&self, resource_id: &ResourceId) -> (r: Result<Option<String>, VantageError>)
        requires
            self.wf(),
        ensures
            self.spec_config().mode is Remote ==> (r matches Err(VantageError::Internal(m)) && m@ == remote_message()),
            self.spec_config().mode is Embedded ==> (r matches Ok(c)
                && crate::base::opt_view(c) == self.spec_runtime().spec_read(resource_id@)),
    {
        match &self.runtime {
            Some(rt) => Ok(rt.read_unit(resource_id)),
            None => Err(VantageError::Internal(String::from_str("Remote mode not yet implemented"))),
        }
    }

    /// Whether a resource exists.
    pub fn unit_exists(&self, resource_id: &ResourceId) -> (r: Result<bool, VantageError>)
        requires
            self.wf(),
        ensures
            self.spec_config().mode is Remote ==> (r matches Err(VantageError::Internal(m)) && m@ == remote_message()),
            self.spec_config().mode is Embedded ==> r == Ok::<bool, VantageError>(self.spec_runtime().spec_read(resource_id@) is Some),
    {
        match &self.runtime {
            Some(rt) => Ok(rt.unit_exists(resource_id)),
            None => Err(VantageError::Internal(String::from_str("Remote mode not yet implemented"))),
        }
    }

    /// The revisions of a resource, oldest first, numbered from one; each
    /// carries the invariant hash it passed where a mutation identifier
    /// would stand, and `unknown` as actor.
    pub fn history(&self, resource_id: &ResourceId) -> (r: Result<Vec<HistoryEntry>, VantageError>)
        requires
            self.wf(),
        ensures
            self.spec_config().mode is Remote ==> (r matches Err(VantageError::Internal(m)) && m@ == remote_message()),
            self.spec_config().mode is Embedded ==> (r matches Ok(v) && {
                let revs = self.spec_runtime().spec_index().revisions(resource_id@);
                &&& v@.len() == revs.len()
                &&& forall|i: int| 0 <= i < v@.len() ==> {
                    &&& (#[trigger] v@[i]).sequence == i + 1
                    &&& v@[i].resource_id@ == resource_id@
                    &&& v@[i].mutation_id@ == revs[i].2
                    &&& v@[i].actor@ == "unknown"@
                    &&& v@[i].timestamp == revs[i].1
                    &&& crate::base::opt_view(v@[i].payload) == revs[i].0
                }
            }),
    {
        let rt = match &self.runtime {
            Some(rt) => rt,
            None => {
                return Err(VantageError::Internal(String::from_str("Remote mode not yet implemented")));
            },
        };
        let revs = rt.index().revisions_of(resource_id);
        let ghost rv = self.spec_runtime().spec_index().revisions(resource_id@);
        let mut entries: Vec<HistoryEntry> = Vec::new();
        let mut i: usize = 0;
        while i < revs.len()
            invariant
                i <= revs@.len(),
                crate::runtime::rev_views(revs@) == rv,
                entries@.len() == i,
                forall|j: int| 0 <= j < i ==> {
                    &&& (#[trigger] entries@[j]).sequence == j + 1
                    &&& entries@[j].resource_id@ == resource_id@
                    &&& entries@[j].mutation_id@ == rv[j].2
                    &&& entries@[j].actor@ == "unknown"@
                    &&& entries@[j].timestamp == rv[j].1
                    &&& crate::base::opt_view(entries@[j].payload) == rv[j].0
                },
            decreases revs@.len() - i,
        {
            let rev = &revs[i];
            assert(rv[i as int] == rev_view(revs@[i as int]));
            let payload = match &rev.payload {
                Some(p) => Some(p.clone()),
                None => None,
            };
            entries.push(HistoryEntry {
                sequence: (i + 1) as u64,
                resource_id: resource_id.clone(),
                mutation_id: rev.invariant_hash.clone(),
                actor: String::from_str("unknown"),
                timestamp: rev.timestamp,
                payload,
            });
            i = i + 1;
        }
        Ok(entries)
    }

    pub fn config(&self) -> (r: &ClientConfig)
        ensures
            *r == self.spec_config(),
    {
        &self.config
    }
}

} // verus!
