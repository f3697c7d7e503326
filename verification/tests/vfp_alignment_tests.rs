use vantage::base::{EpochId, NodeId};
use vantage::vfp::alignment::{compose, rank, AlignmentRelation};
use vantage::vfp::closure::ClosureGraph;
use vantage::vfp::{
    AlignmentAction, CommitmentHash, EpochDivergenceState, FederationState, FederationView, IncompatibilityReason,
    NodeView,
};

fn local_view(epoch: u64, hash_data: &str) -> NodeView {
    NodeView::new(
        NodeId("alice".into()),
        EpochId(epoch),
        CommitmentHash::from_bytes(hash_data.as_bytes()),
        CommitmentHash::genesis(),
    )
}

fn remote_origin(epoch: u64, hash_data: &str) -> NodeView {
    NodeView::new(
        NodeId("bob".into()),
        EpochId(epoch),
        CommitmentHash::from_bytes(hash_data.as_bytes()),
        CommitmentHash::genesis(),
    )
}

#[test]
fn test_identical_alignment() {
    let view = FederationView::new(local_view(5, "same"));
    let origin = remote_origin(5, "same");
    let rel = view.compute_alignment(&origin);
    assert_eq!(rel, AlignmentRelation::Identical);
}

#[test]
fn test_fast_forward_local_ahead() {
    let view = FederationView::new(local_view(10, "hash1010"));
    let origin = remote_origin(5, "hash1010");
    let rel = view.compute_alignment(&origin);
    match rel {
        AlignmentRelation::FastForward { ahead, behind, common_epoch, .. } => {
            assert_eq!(ahead.0, "alice");
            assert_eq!(behind.0, "bob");
            assert_eq!(common_epoch, EpochId(5));
        }
        other => panic!("expected FastForward, got {other:?}"),
    }
}

#[test]
fn test_fast_forward_remote_ahead() {
    let view = FederationView::new(local_view(3, "hash"));
    let origin = remote_origin(7, "hash");
    let rel = view.compute_alignment(&origin);
    match rel {
        AlignmentRelation::FastForward { ahead, behind, common_epoch, .. } => {
            assert_eq!(ahead.0, "bob");
            assert_eq!(behind.0, "alice");
            assert_eq!(common_epoch, EpochId(3));
        }
        other => panic!("expected FastForward, got {other:?}"),
    }
}

#[test]
fn test_genesis_mismatch() {
    let local = NodeView::new(
        NodeId("alice".into()),
        EpochId(5),
        CommitmentHash::from_bytes(b"alice-data"),
        CommitmentHash::genesis(),
    );
    let remote = NodeView::new(
        NodeId("bob".into()),
        EpochId(5),
        CommitmentHash::from_bytes(b"bob-data"),
        CommitmentHash::from_bytes(b"other-genesis"),
    );
    let view = FederationView::new(local);
    let rel = view.compute_alignment(&remote);
    assert_eq!(rel, AlignmentRelation::Incompatible { reason: IncompatibilityReason::GenesisMismatch });
}

#[test]
fn test_epoch_collision_different_hash() {
    let view = FederationView::new(local_view(5, "alice-data"));
    let origin = remote_origin(5, "bob-data");
    let rel = view.compute_alignment(&origin);
    assert_eq!(rel, AlignmentRelation::Incompatible { reason: IncompatibilityReason::EpochCollision(EpochId(5)) });
}

#[test]
fn test_forked_detection() {
    let view = FederationView::new(local_view(7, "alice-fork"));
    let origin = remote_origin(5, "bob-fork");
    let rel = view.compute_alignment(&origin);
    match rel {
        AlignmentRelation::Forked { fork_epoch, .. } => {
            assert_eq!(fork_epoch, EpochId(5));
        }
        other => panic!("expected Forked, got {other:?}"),
    }
}

#[test]
fn alignment_values_in_detail() {
    let view = FederationView::new(local_view(7, "alice-fork"));
    let rel = view.compute_alignment(&remote_origin(5, "bob-fork"));
    assert_eq!(rel, AlignmentRelation::Forked { fork_epoch: EpochId(5), local_divergence: 3, remote_divergence: 2 });
    let ff = view.compute_alignment(&remote_origin(4, "alice-fork"));
    match ff {
        AlignmentRelation::FastForward { catch_up_epochs, .. } => {
            assert_eq!(catch_up_epochs, vec![EpochId(5), EpochId(6), EpochId(7)]);
        }
        other => panic!("expected FastForward, got {other:?}"),
    }
}

#[test]
fn hints_follow_relations() {
    let view = FederationView::new(local_view(3, "h"));
    let div = EpochDivergenceState::new();
    let hints = view.propose_alignment_for(&div, &remote_origin(6, "h"));
    assert_eq!(hints.len(), 1);
    assert_eq!(hints[0].target, NodeId("alice".into()));
    assert_eq!(hints[0].action, AlignmentAction::CatchUpTo(NodeId("bob".into())));
    let hints = view.propose_alignment_for(&div, &remote_origin(1, "other"));
    assert_eq!(hints[0].action, AlignmentAction::RebaseOnto { fork_epoch: EpochId(1), remote_node: NodeId("bob".into()) });
    let hints = view.propose_alignment_for(&div, &remote_origin(1, "h"));
    assert_eq!(hints[0].action, AlignmentAction::NoAction);
}

#[test]
fn ingest_keeps_latest_origin_view() {
    let mut view = FederationView::new(local_view(1, "a"));
    view.ingest(remote_origin(2, "b"), vec![(NodeId("carol".into()), (EpochId(4), CommitmentHash::from_bytes(b"c")))]);
    assert_eq!(view.peers.len(), 2);
    view.ingest(remote_origin(5, "b5"), vec![]);
    assert_eq!(view.nth_commitment(&NodeId("bob".into()), EpochId(5)), Some(CommitmentHash::from_bytes(b"b5")));
    view.ingest(remote_origin(3, "b3"), vec![]);
    assert_eq!(view.nth_commitment(&NodeId("bob".into()), EpochId(5)), Some(CommitmentHash::from_bytes(b"b5")));
    assert_eq!(view.nth_commitment(&NodeId("carol".into()), EpochId(4)), Some(CommitmentHash::from_bytes(b"c")));
}

fn id_identical() -> AlignmentRelation {
    AlignmentRelation::Identical
}

fn id_ff(ahead: &str, behind: &str) -> AlignmentRelation {
    AlignmentRelation::FastForward {
        ahead: NodeId(ahead.into()),
        behind: NodeId(behind.into()),
        common_epoch: EpochId(5),
        catch_up_epochs: vec![],
    }
}

fn id_forked(epoch: u64) -> AlignmentRelation {
    AlignmentRelation::Forked { fork_epoch: EpochId(epoch), local_divergence: 1, remote_divergence: 1 }
}

fn id_incompatible() -> AlignmentRelation {
    AlignmentRelation::Incompatible { reason: IncompatibilityReason::GenesisMismatch }
}

#[test]
fn test_identical_is_identity() {
    let a = id_ff("b", "a");
    assert_eq!(compose(&id_identical(), &a), a);
    assert_eq!(compose(&a, &id_identical()), a);
}

#[test]
fn test_incompatible_is_absorbing() {
    let inc = id_incompatible();
    let ff = id_ff("b", "a");
    assert_eq!(rank(&compose(&inc, &ff)), 3);
    assert_eq!(rank(&compose(&ff, &inc)), 3);
    assert_eq!(rank(&compose(&inc, &id_forked(3))), 3);
    assert_eq!(rank(&compose(&inc, &id_identical())), 3);
}

#[test]
fn test_forked_is_semi_absorbing() {
    let fork = id_forked(3);
    assert_eq!(rank(&compose(&fork, &id_ff("b", "a"))), 2);
    assert_eq!(rank(&compose(&id_ff("b", "a"), &fork)), 2);
    assert_eq!(rank(&compose(&fork, &id_identical())), 2);
}

#[test]
fn test_ff_propagates() {
    let ab = id_ff("b", "a");
    let bc = id_ff("c", "b");
    let ac = compose(&ab, &bc);
    match &ac {
        AlignmentRelation::FastForward { ahead, behind, .. } => {
            assert_eq!(ahead.0, "c");
            assert_eq!(behind.0, "a");
        }
        other => panic!("expected FastForward, got {other:?}"),
    }
    assert_eq!(rank(&ac), 1);
}

#[test]
fn test_closure_stable() {
    let mut g = ClosureGraph::new();
    g.add_relation(NodeId("a".into()), NodeId("b".into()), id_ff("b", "a"));
    g.add_relation(NodeId("b".into()), NodeId("c".into()), id_ff("c", "b"));
    g.add_relation(NodeId("a".into()), NodeId("c".into()), id_ff("c", "a"));
    assert_eq!(g.classify(), FederationState::Stable);
}

#[test]
fn test_closure_divergent() {
    let mut g = ClosureGraph::new();
    g.add_relation(NodeId("a".into()), NodeId("b".into()), id_forked(3));
    let state = g.classify();
    assert!(matches!(state, FederationState::Divergent { .. }));
}

#[test]
fn test_closure_collapsed() {
    let mut g = ClosureGraph::new();
    g.add_relation(NodeId("a".into()), NodeId("b".into()), id_incompatible());
    let state = g.classify();
    assert!(matches!(state, FederationState::Collapsed { .. }));
}

#[test]
fn test_closure_partitioned() {
    let mut g = ClosureGraph::new();
    g.add_relation(NodeId("a".into()), NodeId("b".into()), id_ff("b", "a"));
    g.add_relation(NodeId("b".into()), NodeId("c".into()), id_ff("c", "b"));
    g.add_relation(NodeId("x".into()), NodeId("y".into()), id_ff("y", "x"));
    g.add_relation(NodeId("a".into()), NodeId("x".into()), id_forked(2));

    let state = g.classify();
    match state {
        FederationState::Partitioned { clusters, .. } => {
            assert_eq!(clusters.len(), 2);
        }
        other => panic!("expected Partitioned, got {other:?}"),
    }
}

#[test]
fn test_ff_ff_common_epoch_min() {
    let ab = AlignmentRelation::FastForward {
        ahead: NodeId("b".into()),
        behind: NodeId("a".into()),
        common_epoch: EpochId(3),
        catch_up_epochs: vec![],
    };
    let bc = AlignmentRelation::FastForward {
        ahead: NodeId("c".into()),
        behind: NodeId("b".into()),
        common_epoch: EpochId(7),
        catch_up_epochs: vec![],
    };
    let ac = compose(&ab, &bc);
    match ac {
        AlignmentRelation::FastForward { common_epoch, .. } => {
            assert_eq!(common_epoch, EpochId(3));
        }
        other => panic!("expected FastForward, got {other:?}"),
    }
}

#[test]
fn partitioned_state_in_detail() {
    let mut g = ClosureGraph::new();
    g.add_relation(NodeId("a".into()), NodeId("b".into()), id_ff("b", "a"));
    g.add_relation(NodeId("b".into()), NodeId("c".into()), id_ff("c", "b"));
    g.add_relation(NodeId("x".into()), NodeId("y".into()), id_ff("y", "x"));
    g.add_relation(NodeId("a".into()), NodeId("x".into()), id_forked(2));
    assert_eq!(g.node_count(), 5);
    match g.classify() {
        FederationState::Partitioned { clusters, cross_cluster_forks } => {
            let names: Vec<Vec<String>> = clusters.iter().map(|c| c.0.iter().map(|n| n.0.clone()).collect()).collect();
            assert_eq!(names, vec![vec!["a", "b", "c"], vec!["x", "y"]]);
            assert_eq!(cross_cluster_forks, vec![(NodeId("a".into()), NodeId("x".into()), EpochId(2))]);
        }
        other => panic!("expected Partitioned, got {other:?}"),
    }
    assert_eq!(g.clusters().len(), 2);
    let closure = g.compute_closure();
    assert!(closure.iter().any(|(p, q, r)| p.0 == "a" && q.0 == "c" && rank(r) == 1));
}

#[test]
fn collapsed_reason_counts_pairs() {
    let mut g = ClosureGraph::new();
    g.add_relation(NodeId("a".into()), NodeId("b".into()), id_incompatible());
    match g.classify() {
        FederationState::Collapsed { reason, incompatible_pairs } => {
            assert_eq!(reason, "1 incompatible pair(s) detected");
            assert_eq!(incompatible_pairs, vec![(NodeId("a".into()), NodeId("b".into()))]);
        }
        other => panic!("expected Collapsed, got {other:?}"),
    }
    let single = ClosureGraph::new();
    assert_eq!(single.classify(), FederationState::Stable);
    assert_eq!(single.clusters().len(), 1);
    assert!(g.get_relation(&NodeId("b".into()), &NodeId("a".into())).is_some());
    assert_eq!(g.get_relation(&NodeId("a".into()), &NodeId("a".into())), Some(&AlignmentRelation::Identical));
}

#[test]
fn alignment_above_the_signed_range() {
    let big: u64 = (1u64 << 63) + 1;
    let view = FederationView::new(local_view(big, "x"));
    assert_eq!(view.compute_alignment(&remote_origin(big - 1, "y")),
        AlignmentRelation::Forked { fork_epoch: EpochId(big - 1), local_divergence: 2, remote_divergence: 1 });
    assert_eq!(view.compute_alignment(&remote_origin(big, "x")), AlignmentRelation::Identical);
}

#[test]
fn alignment_catch_up_reaches_the_last_epoch() {
    let view = FederationView::new(local_view(u64::MAX - 2, "x"));
    match view.compute_alignment(&remote_origin(u64::MAX, "x")) {
        AlignmentRelation::FastForward { catch_up_epochs, .. } => {
            assert_eq!(catch_up_epochs, vec![EpochId(u64::MAX - 1), EpochId(u64::MAX)]);
        }
        other => panic!("expected FastForward, got {other:?}"),
    }
}
