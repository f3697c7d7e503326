use std::time::SystemTime;
use vantage::base::{
    AgentId, EpistemicReader, EpochId, ExecutionEnvelope, KnowledgeMutation, LogicalTime,
    MutationId, MutationOp, ResourceId,
};
use vantage::pek::{MutationRequest, PEKStats, ProofGate, ProofPolicy, SystemProof, TransactionRequest};
use vantage::runtime::{ExecutionPayload, VantageRuntime};
use vantage::base::NodeId;
use vantage::node::try_advance_epoch;
use vantage::prn::ElectionEngine;

#[test]
fn test_vantage_runtime_integration_flow() {
    let mut runtime = VantageRuntime::new();
    let mut stats = PEKStats::new();
    let actor = AgentId("developer_01".to_string());
    let unit_id = ResourceId("unit:core_module".to_string());

    let mutation = KnowledgeMutation {
        mutation_id: MutationId("mut_01".to_string()),
        actor: actor.clone(),
        op: MutationOp::Insert {
            resource_id: unit_id.clone(),
            payload: "fn main() { println!(\"Vantage\"); }".to_string(),
        },
        timestamp: SystemTime::now(),
    };

    let request = MutationRequest::new(mutation, SystemProof::Test);
    let receipt_result = ProofGate::commit(request, ProofPolicy::Enforced, &mut runtime, &mut stats);
    assert!(receipt_result.is_ok());

    {
        let index = runtime.index();
        assert!(index.unit_exists(&unit_id));
        let content = index.read_unit(&unit_id);
        assert_eq!(content, Some("fn main() { println!(\"Vantage\"); }".to_string()));
    }

    let duplicate_mutation = KnowledgeMutation {
        mutation_id: MutationId("mut_02".to_string()),
        actor: actor.clone(),
        op: MutationOp::Insert { resource_id: unit_id.clone(), payload: "fn override_main() {}".to_string() },
        timestamp: SystemTime::now(),
    };

    let dup_request = MutationRequest::new(duplicate_mutation, SystemProof::Test);
    let dup_result = ProofGate::commit(dup_request, ProofPolicy::Enforced, &mut runtime, &mut stats);
    assert!(dup_result.is_err());
}

#[test]
fn test_delete_nonexistent_resource() {
    let mut runtime = VantageRuntime::new();
    let mut stats = PEKStats::new();
    let actor = AgentId("test".to_string());
    let unit_id = ResourceId("unit:ghost".to_string());

    let mutation = KnowledgeMutation {
        mutation_id: MutationId("mut_del".to_string()),
        actor,
        op: MutationOp::Delete { resource_id: unit_id },
        timestamp: SystemTime::now(),
    };

    let request = MutationRequest::new(mutation, SystemProof::Test);
    let result = ProofGate::commit(request, ProofPolicy::Enforced, &mut runtime, &mut stats);
    assert!(result.is_ok());
}

#[test]
fn test_progressive_transaction_dag_flow() {
    let mut runtime = VantageRuntime::new();
    let actor = AgentId("developer_01".to_string());

    let unit_a = ResourceId("unit:module_a".to_string());
    let unit_b = ResourceId("unit:module_b".to_string());

    let mutations = vec![
        KnowledgeMutation {
            mutation_id: MutationId("mut_a".to_string()),
            actor: actor.clone(),
            op: MutationOp::Insert { resource_id: unit_a.clone(), payload: "module_a_code".to_string() },
            timestamp: SystemTime::now(),
        },
        KnowledgeMutation {
            mutation_id: MutationId("mut_b".to_string()),
            actor: actor.clone(),
            op: MutationOp::Insert { resource_id: unit_b.clone(), payload: "module_b_code".to_string() },
            timestamp: SystemTime::now(),
        },
    ];

    let tx_result = runtime.commit_transaction(mutations);
    assert!(tx_result.is_ok());
    let receipts = tx_result.unwrap();
    assert_eq!(receipts.len(), 2);

    assert!(runtime.unit_exists(&unit_a));
    assert!(runtime.unit_exists(&unit_b));

    let bad_mutations = vec![
        KnowledgeMutation {
            mutation_id: MutationId("mut_c_valid".to_string()),
            actor: actor.clone(),
            op: MutationOp::Insert {
                resource_id: ResourceId("unit:module_c".to_string()),
                payload: "module_c_code".to_string(),
            },
            timestamp: SystemTime::now(),
        },
        KnowledgeMutation {
            mutation_id: MutationId("mut_d_duplicate".to_string()),
            actor: actor.clone(),
            op: MutationOp::Insert { resource_id: unit_a.clone(), payload: "duplicate_a".to_string() },
            timestamp: SystemTime::now(),
        },
    ];

    let bad_tx_result = runtime.commit_transaction(bad_mutations);
    assert!(bad_tx_result.is_err());
    assert!(!runtime.unit_exists(&ResourceId("unit:module_c".to_string())));
}

#[test]
fn test_attested_transaction_via_proof_gate() {
    let mut runtime = VantageRuntime::new();
    let mut stats = PEKStats::new();
    let actor = AgentId("developer_01".to_string());

    let unit_a = ResourceId("unit:module_a".to_string());
    let unit_b = ResourceId("unit:module_b".to_string());

    let mutations = vec![
        KnowledgeMutation {
            mutation_id: MutationId("mut_a".to_string()),
            actor: actor.clone(),
            op: MutationOp::Insert { resource_id: unit_a.clone(), payload: "code_a".to_string() },
            timestamp: SystemTime::now(),
        },
        KnowledgeMutation {
            mutation_id: MutationId("mut_b".to_string()),
            actor: actor.clone(),
            op: MutationOp::Insert { resource_id: unit_b.clone(), payload: "code_b".to_string() },
            timestamp: SystemTime::now(),
        },
    ];

    let tx_request = TransactionRequest::new(mutations, SystemProof::Test);
    let receipts_result =
        ProofGate::commit_transaction(tx_request, ProofPolicy::StrictCanonical, &mut runtime, &mut stats);

    assert!(receipts_result.is_ok());
    let receipts = receipts_result.unwrap();
    assert_eq!(receipts.len(), 2);

    assert_eq!(stats.admitted_count, 2);
    assert_eq!(stats.rejected_count, 0);

    assert!(runtime.unit_exists(&unit_a));
    assert!(runtime.unit_exists(&unit_b));
}

fn make_payload(mutation: KnowledgeMutation, epoch: EpochId, sequence: u64) -> ExecutionPayload {
    let envelope = ExecutionEnvelope::new(epoch, sequence, LogicalTime::new(sequence));
    ExecutionPayload::new(mutation, envelope)
}

fn test_mutation(id: &str, resource: &str) -> KnowledgeMutation {
    KnowledgeMutation {
        mutation_id: MutationId(id.to_string()),
        actor: AgentId("temporal_test".to_string()),
        op: MutationOp::Insert { resource_id: ResourceId(format!("unit:{}", resource)), payload: "test".to_string() },
        timestamp: SystemTime::now(),
    }
}

#[test]
fn test_temporal_valid_payload_accepted() {
    let mut runtime = VantageRuntime::with_epoch(EpochId(1));
    let payload = make_payload(test_mutation("mut_valid", "t_valid"), EpochId(1), 1);
    let result = runtime.commit_authorized(vec![payload]);
    assert!(result.is_ok());
}

#[test]
fn test_temporal_epoch_mismatch_rejected() {
    let mut runtime = VantageRuntime::with_epoch(EpochId(1));
    let payload = make_payload(test_mutation("mut_bad_epoch", "t_bad_epoch"), EpochId(2), 1);
    let result = runtime.commit_authorized(vec![payload]);
    assert!(result.is_err());
    let err = result.err().unwrap();
    assert!(err.contains("epoch mismatch"), "error: {}", err);
}

#[test]
fn test_temporal_sequence_monotonic_violation_rejected() {
    let mut runtime = VantageRuntime::with_epoch(EpochId(1));
    let p1 = make_payload(test_mutation("mut_seq1", "t_seq1"), EpochId(1), 2);
    let p2 = make_payload(test_mutation("mut_seq1_dup", "t_seq2"), EpochId(1), 1);
    let result = runtime.commit_authorized(vec![p1, p2]);
    assert!(result.is_err());
    let err = result.err().unwrap();
    assert!(err.contains("sequence violation"), "error: {}", err);
}

#[test]
fn test_temporal_sequence_tracked_across_calls() {
    let mut runtime = VantageRuntime::with_epoch(EpochId(1));
    let p1 = make_payload(test_mutation("mut_first", "t_first"), EpochId(1), 1);
    assert!(runtime.commit_authorized(vec![p1]).is_ok());

    let p2 = make_payload(test_mutation("mut_second", "t_second"), EpochId(1), 2);
    assert!(runtime.commit_authorized(vec![p2]).is_ok());

    let p3 = make_payload(test_mutation("mut_replay", "t_third"), EpochId(1), 2);
    let result = runtime.commit_authorized(vec![p3]);
    assert!(result.is_err());
    let err = result.err().unwrap();
    assert!(err.contains("sequence violation"), "error: {}", err);
}

#[test]
fn test_epoch_starts_active() {
    let mut runtime = VantageRuntime::with_epoch(EpochId(1));
    let payload = make_payload(test_mutation("mut_active", "t_active"), EpochId(1), 1);
    assert!(runtime.commit_authorized(vec![payload]).is_ok());
}

#[test]
fn test_epoch_lock_rejects_new_payloads() {
    let mut runtime = VantageRuntime::with_epoch(EpochId(1));
    let locked = runtime.lock_epoch().expect("lock should succeed");
    assert_eq!(locked, EpochId(1));

    let payload = make_payload(test_mutation("mut_locked", "t_locked"), EpochId(1), 1);
    let result = runtime.commit_authorized(vec![payload]);
    assert!(result.is_err());
    let err = result.err().unwrap();
    assert!(err.contains("Locked"), "error: {}", err);
}

#[test]
fn test_epoch_lock_twice_fails() {
    let mut runtime = VantageRuntime::with_epoch(EpochId(1));
    assert!(runtime.lock_epoch().is_ok());
    let result = runtime.lock_epoch();
    assert!(result.is_err());
    let err = result.err().unwrap();
    assert!(err.contains("Cannot lock"), "error: {}", err);
}

#[test]
fn test_epoch_commit_transitions_to_new_epoch() {
    let mut runtime = VantageRuntime::with_epoch(EpochId(1));
    runtime.lock_epoch().expect("lock");

    let result = runtime.commit_epoch(EpochId(2)).expect("commit");
    assert!(result.success);
    assert_eq!(result.epoch, EpochId(1));

    let payload = make_payload(test_mutation("mut_epoch2", "t_epoch2"), EpochId(2), 1);
    assert!(runtime.commit_authorized(vec![payload]).is_ok());
}

#[test]
fn test_epoch_commit_without_lock_fails() {
    let mut runtime = VantageRuntime::with_epoch(EpochId(1));
    let result = runtime.commit_epoch(EpochId(2));
    assert!(result.is_err());
    let err = result.err().unwrap();
    assert!(err.contains("Cannot commit"), "error: {}", err);
}

#[test]
fn test_epoch_full_lifecycle() {
    let mut runtime = VantageRuntime::with_epoch(EpochId(1));

    let p1 = make_payload(test_mutation("mut_phase1", "t_phase1"), EpochId(1), 1);
    assert!(runtime.commit_authorized(vec![p1]).is_ok());

    runtime.lock_epoch().expect("lock");

    let p2 = make_payload(test_mutation("mut_phase2", "t_phase2"), EpochId(1), 2);
    assert!(runtime.commit_authorized(vec![p2]).is_err());

    let commit_result = runtime.commit_epoch(EpochId(2)).expect("commit");
    assert!(commit_result.success);

    let p3 = make_payload(test_mutation("mut_phase3", "t_phase3"), EpochId(2), 1);
    assert!(runtime.commit_authorized(vec![p3]).is_ok());
}

#[test]
fn history_keeps_every_revision() {
    let mut runtime = VantageRuntime::new();
    let id = ResourceId("unit:h".to_string());
    let ins = KnowledgeMutation {
        mutation_id: MutationId("h1".to_string()),
        actor: AgentId("a".to_string()),
        op: MutationOp::Insert { resource_id: id.clone(), payload: "v1".to_string() },
        timestamp: SystemTime::now(),
    };
    let del = KnowledgeMutation {
        mutation_id: MutationId("h2".to_string()),
        actor: AgentId("a".to_string()),
        op: MutationOp::Delete { resource_id: id.clone() },
        timestamp: SystemTime::now(),
    };
    assert!(runtime.commit_transaction(vec![ins]).is_ok());
    assert_eq!(runtime.read_unit(&id), Some("v1".to_string()));
    assert!(runtime.commit_transaction(vec![del]).is_ok());
    assert_eq!(runtime.read_unit(&id), None);
    assert!(!runtime.unit_exists(&id));
    assert_eq!(runtime.index().revisions_of(&id).len(), 2);
}

#[test]
fn node_epoch_step_needs_a_sequence() {
    let mut runtime = VantageRuntime::with_epoch(EpochId(1));
    let mut engine = ElectionEngine::new(NodeId("node-a".into()), 1);
    engine.set_weight(NodeId("node-a".into()), 10);
    let early = try_advance_epoch(&mut runtime, &engine, EpochId(1), 0);
    assert_eq!(early.err(), Some("No epoch consensus reached".to_string()));
    let (locked, quorum, msg) = try_advance_epoch(&mut runtime, &engine, EpochId(1), 3).unwrap();
    assert_eq!(locked, EpochId(1));
    assert_eq!(quorum.epoch, EpochId(2));
    assert_eq!(quorum.supporters, vec![NodeId("node-a".into())]);
    assert_eq!(quorum.aggregate_score, 10 * 3 + 3 * 2 + 3);
    assert_eq!(msg, "Epoch transition: 1 \u{2192} 2 (quorum: 1)");
    let payload = make_payload(test_mutation("mut_after_step", "t_after_step"), EpochId(2), 1);
    assert!(runtime.commit_authorized(vec![payload]).is_ok());
}
