use vantage::base::{
    ElectionResult, EpochCandidateBundle, EpochId, EpochProposal, EpochQuorum, LogicalTime, MetaElectionResult,
    NodeId, Signature,
};
use vantage::prn::{ElectionEngine, MetaElectionEngine};

fn proposal(epoch: u64, proposer: &str, weight: u64, seq: u64, time: u64) -> EpochProposal {
    EpochProposal {
        epoch: EpochId(epoch),
        policy_snapshot: 1,
        min_sequence: seq,
        cutoff_time: LogicalTime::new(time),
        proposer: NodeId(proposer.to_string()),
        trust_weight: weight,
    }
}

fn engine(threshold: u32) -> ElectionEngine {
    let mut e = ElectionEngine::new(NodeId("local".into()), threshold);
    e.set_weight(NodeId("alice".into()), 10);
    e.set_weight(NodeId("bob".into()), 8);
    e.set_weight(NodeId("carol".into()), 6);
    e
}

#[test]
fn test_election_validation_rejects_wrong_epoch() {
    let eng = engine(2);
    let p = proposal(5, "alice", 10, 1, 1);
    let valid = eng.validate(&[p], EpochId(1));
    assert!(valid.is_empty(), "epoch 5 should be rejected when current is 1");
}

#[test]
fn test_election_validation_passes_correct_epoch() {
    let eng = engine(2);
    let p = proposal(2, "alice", 10, 1, 1);
    let valid = eng.validate(&[p], EpochId(1));
    assert_eq!(valid.len(), 1);
}

#[test]
fn test_election_validation_rejects_zero_trust() {
    let eng = engine(2);
    let p = proposal(2, "unknown", 0, 1, 1);
    let valid = eng.validate(&[p], EpochId(1));
    assert!(valid.is_empty());
}

#[test]
fn test_election_quorum_simple_majority() {
    let eng = engine(2);
    let proposals = vec![proposal(2, "alice", 10, 5, 10), proposal(2, "bob", 8, 4, 9)];
    let result = eng.run_election(proposals, EpochId(1));
    match result {
        ElectionResult::Candidate(q) => {
            assert_eq!(q.epoch, EpochId(2));
            assert!(q.supporters.len() >= 2);
        }
        _ => panic!("expected candidate"),
    }
}

#[test]
fn test_election_quorum_below_threshold() {
    let eng = engine(3);
    let proposals = vec![proposal(2, "alice", 10, 5, 10), proposal(2, "bob", 8, 4, 9)];
    let result = eng.run_election(proposals, EpochId(1));
    assert!(matches!(result, ElectionResult::NoConsensus));
}

#[test]
fn test_election_empty_proposals() {
    let eng = engine(2);
    let result = eng.run_election(vec![], EpochId(1));
    assert!(matches!(result, ElectionResult::NoConsensus));
}

#[test]
fn test_election_picks_highest_score() {
    let eng = engine(2);
    let proposals = vec![
        proposal(2, "alice", 10, 5, 10),
        proposal(2, "carol", 6, 2, 5),
        proposal(2, "bob", 8, 4, 9),
    ];
    let result = eng.run_election(proposals, EpochId(1));
    match result {
        ElectionResult::Candidate(q) => {
            assert_eq!(q.epoch, EpochId(2));
        }
        _ => panic!("expected candidate"),
    }
}

#[test]
fn test_election_stale_proposal_rejected() {
    let eng = engine(2);
    let p = proposal(2, "alice", 10, 1, 0);
    let valid = eng.validate(&[p], EpochId(1));
    assert!(valid.is_empty());
}

fn bundle(node: &str, epoch: u64, score: u64, supporters: Vec<&str>) -> EpochCandidateBundle {
    let node_id = NodeId(node.to_string());
    EpochCandidateBundle {
        node_id: node_id.clone(),
        epoch: EpochId(epoch),
        quorum: EpochQuorum {
            epoch: EpochId(epoch),
            supporters: supporters.into_iter().map(|s| NodeId(s.to_string())).collect(),
            aggregate_score: score,
            policy_snapshot: 1,
        },
        aggregate_score: score,
        signature: Signature(vec![]),
    }
}

fn meta_engine() -> MetaElectionEngine {
    let mut e = MetaElectionEngine::new(2, 2);
    e.set_weight(NodeId("alice".into()), 10);
    e.set_weight(NodeId("bob".into()), 8);
    e.set_weight(NodeId("carol".into()), 6);
    e
}

#[test]
fn test_meta_election_valid_bundle_accepted() {
    let eng = meta_engine();
    let b = bundle("alice", 2, 75, vec!["alice", "bob"]);
    assert!(eng.validate_bundle(&b, EpochId(1)));
}

#[test]
fn test_meta_election_wrong_epoch_rejected() {
    let eng = meta_engine();
    let b = bundle("alice", 5, 75, vec!["alice", "bob"]);
    assert!(!eng.validate_bundle(&b, EpochId(1)));
}

#[test]
fn test_meta_election_unknown_node_rejected() {
    let eng = meta_engine();
    let b = bundle("unknown", 2, 75, vec!["unknown"]);
    assert!(!eng.validate_bundle(&b, EpochId(1)));
}

#[test]
fn test_meta_election_below_quorum_threshold() {
    let eng = meta_engine();
    let bundles = vec![bundle("alice", 2, 75, vec!["alice", "bob"])];
    let result = eng.run_meta_election(bundles, EpochId(1));
    assert!(matches!(result, MetaElectionResult::NoConsensus));
}

#[test]
fn test_meta_election_agreement_formed() {
    let eng = meta_engine();
    let bundles = vec![bundle("alice", 2, 75, vec!["alice", "bob"]), bundle("bob", 2, 68, vec!["bob", "carol"])];
    let result = eng.run_meta_election(bundles, EpochId(1));
    match result {
        MetaElectionResult::Agreement(a) => {
            assert_eq!(a.epoch, EpochId(2));
            assert_eq!(a.supporting_nodes.len(), 2);
        }
        _ => panic!("expected agreement"),
    }
}

#[test]
fn test_meta_election_picks_highest_global_score() {
    let eng = meta_engine();
    let bundles = vec![
        bundle("alice", 2, 75, vec!["alice", "bob"]),
        bundle("bob", 2, 68, vec!["bob", "carol"]),
        bundle("carol", 3, 90, vec!["carol", "alice"]),
    ];
    let result = eng.run_meta_election(bundles, EpochId(1));
    match result {
        MetaElectionResult::Agreement(a) => {
            assert_eq!(a.epoch, EpochId(2));
            assert!(a.global_score > 0);
        }
        _ => panic!("expected agreement"),
    }
}

#[test]
fn test_meta_election_empty_bundles() {
    let eng = meta_engine();
    let result = eng.run_meta_election(vec![], EpochId(1));
    assert!(matches!(result, MetaElectionResult::NoConsensus));
}

#[test]
fn test_meta_election_self_only_quorum_rejected() {
    let eng = meta_engine();
    let b = bundle("alice", 2, 75, vec!["alice"]);
    assert!(!eng.validate_bundle(&b, EpochId(1)));
}

#[test]
fn test_meta_election_recompute_rejects_zero_trust_supporters() {
    let eng = meta_engine();
    let b = bundle("alice", 2, 75, vec!["alice", "unknown"]);
    assert!(!eng.validate_bundle(&b, EpochId(1)));
}

#[test]
fn test_meta_election_trust_decay_penalizes_node() {
    let mut eng = meta_engine();
    assert_eq!(eng.get_weight(&NodeId("alice".into())), 10);
    eng.penalize_node(&NodeId("alice".into()));
    assert_eq!(eng.get_weight(&NodeId("alice".into())), 9);
}

#[test]
fn test_meta_election_recompute_score_ignores_bundle_claim() {
    let eng = meta_engine();
    let b = bundle("alice", 2, 9999, vec!["alice", "bob"]);
    assert!(eng.validate_bundle(&b, EpochId(1)));
    let cluster_score = eng.score_cluster(&[&b]);
    assert_eq!(cluster_score, 39);
}

#[test]
fn test_meta_election_validates_all_supporters_have_trust() {
    let eng = meta_engine();
    let b = bundle("bob", 2, 68, vec!["bob", "carol"]);
    assert!(eng.validate_bundle(&b, EpochId(1)));
}

#[test]
fn election_score_and_quorum_values() {
    let eng = engine(2);
    let p = proposal(2, "alice", 10, 5, 10);
    // trust 10 * 3 + sequence 5 * 2 + time 10
    assert_eq!(eng.score(&p), 50);
    let result = eng.run_election(vec![proposal(2, "alice", 10, 5, 10), proposal(2, "bob", 8, 4, 9)], EpochId(1));
    match result {
        ElectionResult::Candidate(q) => {
            assert_eq!(q.supporters.len(), 2);
            assert_eq!(q.aggregate_score, eng.score(&proposal(2, "alice", 10, 5, 10)) + eng.score(&proposal(2, "bob", 8, 4, 9)));
        }
        _ => panic!("expected candidate"),
    }
}

#[test]
fn penalize_unknown_node_and_floor() {
    let mut eng = MetaElectionEngine::new(1, 1);
    eng.set_weight(NodeId("z".into()), 1);
    eng.penalize_node(&NodeId("z".into()));
    assert_eq!(eng.get_weight(&NodeId("z".into())), 0);
    eng.penalize_node(&NodeId("z".into()));
    assert_eq!(eng.get_weight(&NodeId("z".into())), 0);
    assert_eq!(eng.get_weight(&NodeId("nobody".into())), 0);
}

#[test]
fn recompute_quorum_score_sums_log_weights() {
    let eng = meta_engine();
    let b = bundle("alice", 2, 0, vec!["alice", "bob", "carol"]);
    // floor(ln 11) + floor(ln 9) + floor(ln 7)
    assert_eq!(eng.recompute_quorum_score(&b.quorum), 5);
    let filtered = eng.filter_valid_bundles(vec![b, bundle("alice", 9, 0, vec!["alice", "bob"])], EpochId(1));
    assert_eq!(filtered.len(), 1);
}
