//! The epoch step of a serving node: its own proposal for the next epoch
//! must win its election before the runtime's epoch is sealed.

use vstd::prelude::*;
use vstd::string::*;
use crate::base::{
    CommitReceipt, ElectionResult, EpochId, EpochProposal, EpochQuorum, EpochState, ExecutionEnvelope, KnowledgeMutation,
    LogicalTime, NodeId,
};
use crate::pek::{certificate_valid, PEKError, ProofCertificate, ProofPolicy};
use crate::runtime::ExecutionPayload;
use crate::trust::{revoked_message, AuthorizedMutation, StaticTrustPolicy, TrustEvaluator};
use crate::text::str_eq;
use crate::prn::{
    group_qualifies, group_score, group_supporters, proposal_score, proposal_valid, total_score, valid_proposals,
    ElectionEngine,
};
use crate::runtime::{lock_refusal, TemporalState, VantageRuntime};
use crate::text::{decimal, u64_to_decimal};

verus! {

/// The proposal a node makes for the epoch after `current` at sequence
/// `sequence`.
pub open spec fn node_proposal(current: EpochId, sequence: u64, proposer: NodeId) -> EpochProposal {
    EpochProposal {
        epoch: EpochId((current.0 + 1) as u64),
        policy_snapshot: 1,
        min_sequence: sequence,
        cutoff_time: LogicalTime { lamport: sequence },
        proposer,
        trust_weight: 100,
    }
}

/// The report of an epoch transition.
pub open spec fn transition_message(from: u64, to: u64, supporters: nat) -> Seq<char> {
    "Epoch transition: "@ + decimal(from as nat) + " \u{2192} "@ + decimal(to as nat) + " (quorum: "@ + decimal(supporters) + ")"@
}

/// Runs the node's election for the epoch after `current` with its own
/// proposal at `sequence`. The proposal wins when it passes the filter and
/// the engine's threshold is at most one; then the runtime's epoch is
/// locked and committed, moving it to the next epoch, and the result
/// carries the sealed epoch, the winning quorum and the report.
pub fn try_advance_epoch(runtime: &mut VantageRuntime, engine: &ElectionEngine, current: EpochId, sequence: u64)
    -> (r: Result<(EpochId, EpochQuorum, String), String>)
    requires
        current.0 < u64::MAX,
        proposal_valid(engine.spec_weights(), node_proposal(current, sequence, engine.spec_node_id()), current)
            ==> proposal_score(engine.spec_weights(), node_proposal(current, sequence, engine.spec_node_id())) <= u64::MAX,
    ensures
        ({
            let p = node_proposal(current, sequence, engine.spec_node_id());
            let won = proposal_valid(engine.spec_weights(), p, current) && engine.spec_threshold() <= 1;
            let t = old(runtime).spec_temporal();
            let next = (current.0 + 1) as u64;
            if !won {
                &&& r matches Err(m) && m@ == "No epoch consensus reached"@
                &&& *final(runtime) == *old(runtime)
            } else if t.epoch_state != EpochState::Active {
                &&& r matches Err(m) && m@ == lock_refusal(t.current_epoch, t.epoch_state)
                &&& *final(runtime) == *old(runtime)
            } else {
                &&& r matches Ok((locked, q, msg)) && {
                    &&& locked == t.current_epoch
                    &&& q.epoch == EpochId(next)
                    &&& q.policy_snapshot == 1
                    &&& q.supporters@ == seq![engine.spec_node_id()]
                    &&& q.aggregate_score == proposal_score(engine.spec_weights(), p)
                    &&& msg@ == transition_message(locked.0, next, 1)
                }
                &&& final(runtime).spec_temporal() == TemporalState::new_spec(EpochId(next))
                &&& final(runtime).spec_index() == old(runtime).spec_index()
            }
        }),
{
    let next_epoch = EpochId(current.0 + 1);
    let proposal = EpochProposal {
        epoch: next_epoch,
        policy_snapshot: 1,
        min_sequence: sequence,
        cutoff_time: LogicalTime::new(sequence),
        proposer: engine.node_id().clone(),
        trust_weight: 100,
    };
    let ghost p = proposal;
    let ghost ws = engine.spec_weights();
    let mut proposals: Vec<EpochProposal> = Vec::new();
    proposals.push(proposal);
    proof {
        assert(proposals@ =~= seq![p]);
        assert(seq![p].drop_last() =~= Seq::<EpochProposal>::empty());
        assert(valid_proposals(ws, Seq::<EpochProposal>::empty(), current) =~= Seq::<EpochProposal>::empty());
        assert(total_score(ws, Seq::<EpochProposal>::empty()) == 0);
        let vs = valid_proposals(ws, seq![p], current);
        if proposal_valid(ws, p, current) {
            assert(vs =~= seq![p]);
            assert(vs.drop_last() =~= Seq::<EpochProposal>::empty());
            assert(group_supporters(Seq::<EpochProposal>::empty(), p.epoch, 1) =~= Seq::<NodeId>::empty());
            assert(group_supporters(vs, p.epoch, 1) =~= seq![p.proposer]);
        } else {
            assert(vs =~= Seq::<EpochProposal>::empty());
        }
    }
    let result = engine.run_election(proposals, current);
    let quorum = match result {
        ElectionResult::Candidate(q) => q,
        ElectionResult::NoConsensus => {
            proof {
                let vs = valid_proposals(ws, seq![p], current);
                if proposal_valid(ws, p, current) {
                    assert(vs[0] == p);
                    assert(!group_qualifies(vs, vs[0].epoch, vs[0].policy_snapshot, engine.spec_threshold()));
                }
            }
            return Err(String::from_str("No epoch consensus reached"));
        },
    };
    proof {
        let vs = valid_proposals(ws, seq![p], current);
        assert(proposal_valid(ws, p, current));
        assert(vs =~= seq![p]);
        assert(group_qualifies(vs, vs[0].epoch, vs[0].policy_snapshot, engine.spec_threshold()));
        assert(group_score(ws, vs, p.epoch, 1) == proposal_score(ws, p)) by {
            assert(vs.drop_last() =~= Seq::<EpochProposal>::empty());
            assert(group_score(ws, Seq::<EpochProposal>::empty(), p.epoch, 1) == 0);
            assert(vs.last() == p);
            assert(crate::prn::in_group(p, p.epoch, 1));
        }
        assert(quorum.supporters@ =~= seq![p.proposer]);
    }
    let locked = match runtime.lock_epoch() {
        Ok(e) => e,
        Err(e) => {
            return Err(e);
        },
    };
    match runtime.commit_epoch(next_epoch) {
        Ok(_) => {},
        Err(e) => {
            return Err(e);
        },
    }
    let mut msg = String::from_str("Epoch transition: ");
    let a = u64_to_decimal(locked.0);
    msg.append(a.as_str());
    msg.append(" \u{2192} ");
    let b = u64_to_decimal(next_epoch.0);
    msg.append(b.as_str());
    msg.append(" (quorum: ");
    let c = u64_to_decimal(quorum.supporters.len() as u64);
    msg.append(c.as_str());
    msg.append(")");
    Ok((locked, quorum, msg))
}

/// The policy a request names: `StrictCanonical` when it says so, and
/// `Enforced` otherwise; the weaker policies cannot be asked for.
pub fn parse_policy(policy: Option<&str>) -> (r: ProofPolicy)
    ensures
        r == match policy {
            Some(p) => if p@ == "StrictCanonical"@ { ProofPolicy::StrictCanonical } else { ProofPolicy::Enforced },
            None => ProofPolicy::Enforced,
        },
{
    match policy {
        Some(p) => {
            if str_eq(p, "StrictCanonical") {
                ProofPolicy::StrictCanonical
            } else {
                ProofPolicy::Enforced
            }
        },
        None => ProofPolicy::Enforced,
    }
}

/// The envelope of the next payload: the sequence moves on by one and
/// stamps the payload in `epoch`, its logical time equal to it.
pub fn next_envelope(sequence: &mut u64, epoch: EpochId) -> (r: ExecutionEnvelope)
    requires
        *old(sequence) < u64::MAX,
    ensures
        *final(sequence) == *old(sequence) + 1,
        r == (ExecutionEnvelope { epoch, sequence: *final(sequence), logical_time: LogicalTime { lamport: *final(sequence) } }),
{
    *sequence = *sequence + 1;
    ExecutionEnvelope::new(epoch, *sequence, LogicalTime::new(*sequence))
}

/// The payloads of a certified batch: each mutation in order, stamped in
/// `epoch` with the sequences after `seq`.
pub open spec fn certified_payloads(ms: Seq<KnowledgeMutation>, epoch: EpochId, seq: u64) -> Seq<ExecutionPayload> {
    Seq::new(ms.len(), |i: int| ExecutionPayload {
        mutation: ms[i],
        envelope: ExecutionEnvelope {
            epoch,
            sequence: (seq + 1 + i) as u64,
            logical_time: LogicalTime { lamport: (seq + 1 + i) as u64 },
        },
    })
}

/// Commits mutations under a certificate: the certificate must verify and
/// its issuer be authorized by `trust`; then each mutation, bound to the
/// authorized certificate, goes to the runtime with the next envelope, all
/// in one authorized batch.
pub fn commit_certified(
    cert: ProofCertificate,
    mutations: Vec<KnowledgeMutation>,
    runtime: &mut VantageRuntime,
    trust: &StaticTrustPolicy,
    sequence: &mut u64,
    epoch: EpochId,
) -> (r: Result<Vec<CommitReceipt>, PEKError>)
    requires
        *old(sequence) + mutations@.len() <= u64::MAX,
    ensures
        !certificate_valid(cert.spec_proof_hash(), cert.spec_pcf_version()) ==> {
            &&& r == Err::<Vec<CommitReceipt>, PEKError>(PEKError::InvalidAttestation)
            &&& *final(runtime) == *old(runtime)
            &&& *final(sequence) == *old(sequence)
        },
        certificate_valid(cert.spec_proof_hash(), cert.spec_pcf_version())
            && trust.revocation.spec_revoked().contains(trust.trusted_issuer@) ==> {
            &&& r matches Err(PEKError::PolicyViolation(m)) && m@ == revoked_message(trust.trusted_issuer@)
            &&& *final(runtime) == *old(runtime)
            &&& *final(sequence) == *old(sequence)
        },
        certificate_valid(cert.spec_proof_hash(), cert.spec_pcf_version())
            && !trust.revocation.spec_revoked().contains(trust.trusted_issuer@) ==> {
            &&& *final(sequence) == *old(sequence) + mutations@.len()
            &&& match r {
                Ok(v) => VantageRuntime::authorized_outcome(*old(runtime), *final(runtime),
                    certified_payloads(mutations@, epoch, *old(sequence)), Ok(v)),
                Err(PEKError::RuntimeError(e)) => VantageRuntime::authorized_outcome(*old(runtime), *final(runtime),
                    certified_payloads(mutations@, epoch, *old(sequence)), Err(e)),
                _ => false,
            }
        },
{
    let verified = match cert.verify() {
        Ok(v) => v,
        Err(e) => {
            return Err(e);
        },
    };
    let authorized = match trust.authorize(verified) {
        Ok(a) => a,
        Err(m) => {
            return Err(PEKError::PolicyViolation(m));
        },
    };
    let ghost ms = mutations@;
    let ghost s0 = *sequence;
    let mut payloads: Vec<ExecutionPayload> = Vec::new();
    let mut rest = mutations;
    let n = rest.len();
    let mut i: usize = 0;
    while i < n
        invariant
            n == ms.len(),
            i <= n,
            rest@ == ms.skip(i as int),
            s0 + ms.len() <= u64::MAX,
            *sequence == s0 + i,
            payloads@ == certified_payloads(ms, epoch, s0).take(i as int),
        decreases n - i,
    {
        let m = rest.remove(0);
        let bound = AuthorizedMutation::new(m, authorized.clone());
        let env = next_envelope(sequence, epoch);
        payloads.push(ExecutionPayload::new(bound.mutation, env));
        proof {
            assert(m == ms[i as int]);
            assert(rest@ =~= ms.skip(i + 1));
            assert(certified_payloads(ms, epoch, s0).take(i + 1) =~= certified_payloads(ms, epoch, s0).take(i as int).push(certified_payloads(ms, epoch, s0)[i as int]));
        }
        i = i + 1;
    }
    assert(certified_payloads(ms, epoch, s0).take(n as int) =~= certified_payloads(ms, epoch, s0));
    match runtime.commit_authorized(payloads) {
        Ok(v) => Ok(v),
        Err(e) => Err(PEKError::RuntimeError(e)),
    }
}

} // verus!
