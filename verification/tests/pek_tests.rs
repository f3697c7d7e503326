use std::time::SystemTime;
use vantage::base::{AgentId, CommitReceipt, KnowledgeMutation, MutationId, MutationOp, ResourceId};
use vantage::pek::{
    EpistemicExecutor, MutationRequest, PEKError, PEKStats, ProofCertificate, ProofGate, ProofPolicy,
    SystemProof, TransactionRequest,
};

struct MockExecutor;

impl EpistemicExecutor for MockExecutor {
    fn execute(&mut self, m: KnowledgeMutation) -> Result<CommitReceipt, String> {
        Ok(CommitReceipt {
            tx_id: format!("tx_{}", m.mutation_id.0),
            actor: m.actor,
            timestamp: m.timestamp,
            invariant_hash: "mock_sha256".to_string(),
        })
    }

    fn execute_transaction(&mut self, mutations: Vec<KnowledgeMutation>) -> Result<Vec<CommitReceipt>, String> {
        mutations
            .into_iter()
            .map(|m| {
                Ok(CommitReceipt {
                    tx_id: format!("tx_{}", m.mutation_id.0),
                    actor: m.actor,
                    timestamp: m.timestamp,
                    invariant_hash: "mock_sha256".to_string(),
                })
            })
            .collect()
    }
}

fn create_test_mutation(id_str: &str) -> KnowledgeMutation {
    KnowledgeMutation {
        mutation_id: MutationId(id_str.to_string()),
        actor: AgentId("pek_tester".to_string()),
        op: MutationOp::Delete { resource_id: ResourceId("unit:test".to_string()) },
        timestamp: SystemTime::now(),
    }
}

#[test]
fn test_policy_disabled_always_admits() {
    let mut stats = PEKStats::new();
    let mut executor = MockExecutor;
    let mutation = create_test_mutation("invalid_id_format");
    let req = MutationRequest::new(mutation, SystemProof::Test);

    let res = ProofGate::commit(req, ProofPolicy::Disabled, &mut executor, &mut stats);
    assert!(res.is_ok());
    assert_eq!(stats.admitted_count, 1);
    assert_eq!(stats.rejected_count, 0);
}

#[test]
fn test_policy_advisory_warns_but_admits() {
    let mut stats = PEKStats::new();
    let mut executor = MockExecutor;
    let mutation = create_test_mutation("mut_valid_id");
    let req = MutationRequest::new(mutation, SystemProof::Test);
    let res = ProofGate::commit(req, ProofPolicy::Advisory, &mut executor, &mut stats);
    assert!(res.is_ok());
    assert_eq!(stats.admitted_count, 1);
    assert_eq!(stats.rejected_count, 0);
}

#[test]
fn test_policy_enforced_rejects_unverified_certificate() {
    let _stats = PEKStats::new();
    let _executor = MockExecutor;
    let _mutation = create_test_mutation("mut_valid_id");
    let cert = ProofCertificate::new("claim_01".to_string(), [0u8; 32], 1);
    let result = cert.verify();
    assert!(result.is_err());
    assert_eq!(result.err(), Some(PEKError::InvalidAttestation));
}

#[test]
fn test_policy_enforced_admits_valid_attestation() {
    let mut stats = PEKStats::new();
    let mut executor = MockExecutor;
    let mutation = create_test_mutation("mut_valid_id");
    let req = MutationRequest::new(mutation, SystemProof::Test);

    let res = ProofGate::commit(req, ProofPolicy::Enforced, &mut executor, &mut stats);
    assert!(res.is_ok());
    assert_eq!(stats.admitted_count, 1);
    assert_eq!(stats.rejected_count, 0);
}

#[test]
fn test_policy_strict_canonical_rejects_non_canonical_id() {
    let mut stats = PEKStats::new();
    let mut executor = MockExecutor;
    let mutation = create_test_mutation("bad_id_prefix_without_mut");
    let req = MutationRequest::new(mutation, SystemProof::Test);

    let res = ProofGate::commit(req, ProofPolicy::StrictCanonical, &mut executor, &mut stats);
    assert!(matches!(res.err(), Some(PEKError::PolicyViolation(_))));
    assert_eq!(stats.admitted_count, 0);
    assert_eq!(stats.rejected_count, 1);
}

#[test]
fn test_pcf_version_mismatch_fails_verification() {
    let mut hash = [0u8; 32];
    hash[0] = 0xFF;
    let bad_version_cert = ProofCertificate::new("claim_01".to_string(), hash, 2);
    let result = bad_version_cert.verify();
    assert!(result.is_err());
    assert_eq!(result.err(), Some(PEKError::InvalidAttestation));
}

#[test]
fn test_commit_transaction_enforced_admits_valid_batch() {
    let mut stats = PEKStats::new();
    let mut executor = MockExecutor;
    let mutations = vec![create_test_mutation("mut_a"), create_test_mutation("mut_b")];
    let tx_req = TransactionRequest::new(mutations, SystemProof::Test);
    let res = ProofGate::commit_transaction(tx_req, ProofPolicy::Enforced, &mut executor, &mut stats);
    assert!(res.is_ok());
    assert_eq!(res.unwrap().len(), 2);
    assert_eq!(stats.admitted_count, 2);
}

#[test]
fn test_commit_transaction_strict_canonical_rejects_non_canonical() {
    let mut stats = PEKStats::new();
    let mut executor = MockExecutor;
    let mutations = vec![create_test_mutation("bad_prefix")];
    let tx_req = TransactionRequest::new(mutations, SystemProof::Test);
    let res = ProofGate::commit_transaction(tx_req, ProofPolicy::StrictCanonical, &mut executor, &mut stats);
    assert!(matches!(res.err(), Some(PEKError::PolicyViolation(_))));
    assert_eq!(stats.rejected_count, 1);
}

#[test]
fn test_commit_transaction_disabled_bypasses_attestation() {
    let mut stats = PEKStats::new();
    let mut executor = MockExecutor;
    let mutations = vec![create_test_mutation("bad")];
    let tx_req = TransactionRequest::new(mutations, SystemProof::Test);
    let res = ProofGate::commit_transaction(tx_req, ProofPolicy::Disabled, &mut executor, &mut stats);
    assert!(res.is_ok());
    assert_eq!(stats.admitted_count, 1);
}

#[test]
fn noncanonical_refusal_names_the_identifier() {
    let mut stats = PEKStats::new();
    let mut executor = MockExecutor;
    let req = MutationRequest::new(create_test_mutation("abc"), SystemProof::Test);
    let res = ProofGate::commit(req, ProofPolicy::StrictCanonical, &mut executor, &mut stats);
    match res {
        Err(PEKError::PolicyViolation(msg)) => {
            assert!(msg.starts_with("MutationId 'MutationId(\"abc\")'"), "{}", msg);
        }
        other => panic!("unexpected {:?}", other),
    }
    assert!(ProofGate::is_canonical(&create_test_mutation("mut_x")));
    assert!(!ProofGate::is_canonical(&create_test_mutation("mu_x")));
}

#[test]
fn stats_reset_clears_counters() {
    let mut stats = PEKStats::new();
    let mut executor = MockExecutor;
    let req = MutationRequest::new(create_test_mutation("mut_1"), SystemProof::BootstrapKernel);
    assert!(ProofGate::commit(req, ProofPolicy::Enforced, &mut executor, &mut stats).is_ok());
    assert_eq!(stats.admitted_count, 1);
    stats.reset();
    assert_eq!(stats.admitted_count, 0);
    assert_eq!(stats.rejected_count, 0);
    assert_eq!(stats.advisory_warnings, 0);
}
