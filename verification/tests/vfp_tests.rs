use vantage::base::{EpochId, NodeId};
use vantage::vfp::{detect_transition, Capital, CommitmentHash, FederationState, PhaseTransition};

#[test]
fn test_transition_detection() {
    let stable = FederationState::Stable;
    let div = FederationState::Divergent { fork_epochs: vec![EpochId(3)] };
    let t = detect_transition(&stable, &div);
    assert!(matches!(t, PhaseTransition::StableToDivergent { .. }));

    let coll = FederationState::Collapsed { reason: "test".into(), incompatible_pairs: vec![] };
    let t2 = detect_transition(&div, &coll);
    assert!(matches!(t2, PhaseTransition::AnyToCollapsed { .. }));
}

#[test]
fn test_capital_arithmetic() {
    let a = Capital(100);
    let b = Capital(50);
    assert_eq!(a.checked_add(b), Some(Capital(150)));
    assert_eq!(a.checked_sub(b), Some(Capital(50)));
    assert_eq!(Capital(5).checked_sub(Capital(10)), None);
}

#[test]
fn capital_overflow_and_zero() {
    assert_eq!(Capital(u64::MAX).checked_add(Capital(1)), None);
    assert_eq!(Capital::zero(), Capital(0));
}

#[test]
fn commitment_hash_is_sha256() {
    let h = CommitmentHash::from_bytes(b"abc");
    assert_eq!(h.0[0], 0xba);
    assert_eq!(h.0[1], 0x78);
    assert_eq!(h.0[31], 0xad);
    assert!(h.same_as(&CommitmentHash::from_bytes(b"abc")));
    assert!(!h.same_as(&CommitmentHash::genesis()));
}

#[test]
fn stable_to_stable_and_flags() {
    let t = detect_transition(&FederationState::Stable, &FederationState::Stable);
    assert_eq!(t, PhaseTransition::StableToStable);
    assert!(FederationState::Stable.is_stable());
    assert!(!FederationState::Stable.is_collapsed());
    let _ = NodeId("x".into());
}
