use std::time::SystemTime;
use vantage::base::{AgentId, EpistemicReader, EpochId, KnowledgeMutation, MutationId, MutationOp, ResourceId};
use vantage::node::{commit_certified, next_envelope, parse_policy};
use vantage::pek::{PEKError, ProofCertificate, ProofPolicy};
use vantage::runtime::VantageRuntime;
use vantage::trust::{IdentityId, PolicyDigest, StaticTrustPolicy};

fn insert(id: &str, res: &str) -> KnowledgeMutation {
    KnowledgeMutation {
        mutation_id: MutationId(id.to_string()),
        actor: AgentId("node".to_string()),
        op: MutationOp::Insert { resource_id: ResourceId(res.to_string()), payload: "p".to_string() },
        timestamp: SystemTime::now(),
    }
}

fn good_cert() -> ProofCertificate {
    let mut hash = [0u8; 32];
    hash[3] = 9;
    ProofCertificate::new("claim".into(), hash, 1)
}

#[test]
fn policy_names() {
    assert_eq!(parse_policy(Some("StrictCanonical")), ProofPolicy::StrictCanonical);
    assert_eq!(parse_policy(Some("Disabled")), ProofPolicy::Enforced);
    assert_eq!(parse_policy(Some("Advisory")), ProofPolicy::Enforced);
    assert_eq!(parse_policy(None), ProofPolicy::Enforced);
}

#[test]
fn envelopes_count_up() {
    let mut seq = 4u64;
    let env = next_envelope(&mut seq, EpochId(2));
    assert_eq!(seq, 5);
    assert_eq!(env.sequence, 5);
    assert_eq!(env.logical_time.lamport, 5);
    assert_eq!(env.epoch, EpochId(2));
}

#[test]
fn certified_batch_commits() {
    let mut runtime = VantageRuntime::with_epoch(EpochId(1));
    let trust = StaticTrustPolicy::new(IdentityId("daemon".into()), PolicyDigest("v1".into()));
    let mut seq = 0u64;
    let r = commit_certified(good_cert(), vec![insert("m1", "unit:a"), insert("m2", "unit:b")], &mut runtime, &trust, &mut seq, EpochId(1));
    assert_eq!(r.unwrap().len(), 2);
    assert_eq!(seq, 2);
    assert!(runtime.unit_exists(&ResourceId("unit:a".into())));
    let again = commit_certified(good_cert(), vec![insert("m3", "unit:a")], &mut runtime, &trust, &mut seq, EpochId(1));
    assert!(matches!(again, Err(PEKError::RuntimeError(_))));
    let wrong_epoch = commit_certified(good_cert(), vec![insert("m4", "unit:c")], &mut runtime, &trust, &mut seq, EpochId(9));
    assert!(matches!(wrong_epoch, Err(PEKError::RuntimeError(ref m)) if m.contains("epoch mismatch")));
}

#[test]
fn certified_batch_refusals() {
    let mut runtime = VantageRuntime::with_epoch(EpochId(1));
    let mut trust = StaticTrustPolicy::new(IdentityId("daemon".into()), PolicyDigest("v1".into()));
    let mut seq = 0u64;
    let bad = ProofCertificate::new("claim".into(), [0u8; 32], 1);
    let r = commit_certified(bad, vec![insert("m1", "unit:a")], &mut runtime, &trust, &mut seq, EpochId(1));
    assert_eq!(r.err(), Some(PEKError::InvalidAttestation));
    trust.revocation.revoke(IdentityId("daemon".into()));
    let r = commit_certified(good_cert(), vec![insert("m1", "unit:a")], &mut runtime, &trust, &mut seq, EpochId(1));
    assert_eq!(r.err(), Some(PEKError::PolicyViolation("Issuer IdentityId(\"daemon\") has been revoked".to_string())));
    assert_eq!(seq, 0);
    assert!(!runtime.unit_exists(&ResourceId("unit:a".into())));
}
