use vantage::base::{EpochId, NodeId};
use vantage::vfp::market::{claim_token_id, CapitalLedger};
use vantage::vfp::predictive::{prediction_claim_id, reality_claim_hash, PredictionTerms};
use vantage::vfp::{Capital, CommitmentHash, SettlementResult};

fn test_hash(data: &str) -> CommitmentHash {
    CommitmentHash::from_bytes(data.as_bytes())
}

fn hex_of(h: &CommitmentHash) -> String {
    h.0.iter().map(|b| format!("{:02x}", b)).collect()
}

fn alice() -> NodeId {
    NodeId("alice".into())
}

#[test]
fn test_claim_id_deterministic() {
    let node = NodeId("alice".into());
    let c1 = prediction_claim_id(&node, EpochId(10), &test_hash("r1"));
    let c2 = prediction_claim_id(&node, EpochId(10), &test_hash("r1"));
    assert_eq!(c1, c2);
}

#[test]
fn claim_id_exact_value() {
    let id = prediction_claim_id(&alice(), EpochId(10), &test_hash("r1"));
    assert_eq!(id, "claim:c847b08cc335739b3bc431f1591703ef");
    assert_ne!(id, prediction_claim_id(&alice(), EpochId(11), &test_hash("r1")));
}

#[test]
fn test_reality_claim_hash_deterministic() {
    let node = NodeId("alice".into());
    let p = PredictionTerms { target_epoch: EpochId(6), claim_hash: test_hash("p"), confidence_bits: 0.7f64.to_bits() };
    let c1 = reality_claim_hash(&node, EpochId(5), &test_hash("h"), &[p]);
    let c2 = reality_claim_hash(&node, EpochId(5), &test_hash("h"), &[p]);
    assert_eq!(c1, c2);
}

#[test]
fn reality_claim_hash_exact_values() {
    let p = PredictionTerms { target_epoch: EpochId(6), claim_hash: test_hash("p"), confidence_bits: 0.7f64.to_bits() };
    let with = reality_claim_hash(&alice(), EpochId(5), &test_hash("h"), &[p]);
    assert_eq!(hex_of(&with), "f755b509576cecee938a6cc0f15ce59741d5adf4107c66c247cdf4dd6f2efa87");
    let without = reality_claim_hash(&alice(), EpochId(5), &test_hash("h"), &[]);
    assert_eq!(hex_of(&without), "74e2a6c9a8b518ff04d8e893731fa5dafb8f9b78645afa0ebdc09df46c0f115e");
}

#[test]
fn test_settlement_correct() {
    let hash = test_hash("predicted-reality");
    let result = SettlementResult::evaluate(&hash, Some(&hash));
    assert!(matches!(result, SettlementResult::Correct));
}

#[test]
fn test_settlement_incorrect() {
    let result = SettlementResult::evaluate(&test_hash("predicted"), Some(&test_hash("actual")));
    match result {
        SettlementResult::Incorrect { predicted, actual } => {
            assert_eq!(predicted, test_hash("predicted"));
            assert_eq!(actual, test_hash("actual"));
        }
        _ => panic!("expected Incorrect"),
    }
}

#[test]
fn test_settlement_not_yet_settled() {
    let result = SettlementResult::evaluate(&test_hash("predicted"), None);
    assert!(matches!(result, SettlementResult::NotYetSettled));
}

#[test]
fn token_id_exact_value() {
    let id = claim_token_id(&alice(), Capital(30), EpochId(10), EpochId(5));
    assert_eq!(id, "ct:1b65beb5eba439c6fcd7f16721343711");
}

#[test]
fn ledger_available_capital_excludes_escrowed() {
    let mut ledger = CapitalLedger::new();
    ledger.initialize_capital(alice(), Capital(100));
    assert_eq!(ledger.available_capital(&alice()), Capital(100));
    ledger.escrow(&alice(), Capital(30)).unwrap();
    assert_eq!(ledger.available_capital(&alice()), Capital(70));
    assert_eq!(ledger.escrowed_capital(&alice()), Capital(30));
    assert_eq!(ledger.total_capital(&alice()), Capital(100));
}

#[test]
fn ledger_rejects_insufficient_capital() {
    let mut ledger = CapitalLedger::new();
    ledger.initialize_capital(alice(), Capital(10));
    let result = ledger.escrow(&alice(), Capital(20));
    assert_eq!(result, Err("insufficient capital: have 10 available, need 20".to_string()));
    assert_eq!(ledger.escrowed_capital(&alice()), Capital(0));
}

#[test]
fn ledger_rejects_zero_stake_and_unknown_nodes() {
    let mut ledger = CapitalLedger::new();
    ledger.initialize_capital(alice(), Capital(10));
    assert_eq!(ledger.escrow(&alice(), Capital(0)), Err("stake must be positive".to_string()));
    let bob = NodeId("bob".into());
    assert!(!ledger.has_account(&bob));
    assert_eq!(ledger.escrow(&bob, Capital(1)), Err("insufficient capital: have 0 available, need 1".to_string()));
    assert_eq!(ledger.total_capital(&bob), Capital(0));
}

#[test]
fn ledger_initialize_keeps_an_existing_account() {
    let mut ledger = CapitalLedger::new();
    ledger.initialize_capital(alice(), Capital(100));
    ledger.escrow(&alice(), Capital(40)).unwrap();
    ledger.initialize_capital(alice(), Capital(5));
    assert_eq!(ledger.total_capital(&alice()), Capital(100));
    assert_eq!(ledger.escrowed_capital(&alice()), Capital(40));
}

#[test]
fn ledger_settlement_pays_out_a_win() {
    let mut ledger = CapitalLedger::new();
    ledger.initialize_capital(alice(), Capital(100));
    ledger.escrow(&alice(), Capital(20)).unwrap();
    ledger.settle_stake(&alice(), Capital(20), Capital(30));
    assert_eq!(ledger.total_capital(&alice()), Capital(110));
    assert_eq!(ledger.escrowed_capital(&alice()), Capital(0));
    assert_eq!(ledger.available_capital(&alice()), Capital(110));
}

#[test]
fn ledger_settlement_takes_a_lost_stake() {
    let mut ledger = CapitalLedger::new();
    ledger.initialize_capital(alice(), Capital(100));
    ledger.escrow(&alice(), Capital(20)).unwrap();
    ledger.settle_stake(&alice(), Capital(20), Capital(0));
    assert_eq!(ledger.total_capital(&alice()), Capital(80));
    assert_eq!(ledger.available_capital(&alice()), Capital(80));
}

#[test]
fn ledger_all_in_leaves_nothing_available() {
    let mut ledger = CapitalLedger::new();
    ledger.initialize_capital(alice(), Capital(10));
    ledger.escrow(&alice(), Capital(10)).unwrap();
    assert_eq!(ledger.available_capital(&alice()), Capital(0));
    assert!(ledger.escrow(&alice(), Capital(1)).is_err());
}

#[test]
fn ledger_stake_settled_at_par_restores_the_account() {
    let mut ledger = CapitalLedger::new();
    ledger.initialize_capital(alice(), Capital(100));
    ledger.escrow(&alice(), Capital(15)).unwrap();
    ledger.escrow(&alice(), Capital(25)).unwrap();
    ledger.settle_stake(&alice(), Capital(25), Capital(25));
    assert_eq!(ledger.total_capital(&alice()), Capital(100));
    assert_eq!(ledger.escrowed_capital(&alice()), Capital(15));
}
