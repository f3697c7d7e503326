use std::time::{Duration, SystemTime};
use vantage::base::EpochId;
use vantage::metrics::{compute_half_life, median_index, CumulativeMetrics, HalfLifeObservation, MetricsSnapshot, NodeMetrics};

#[test]
fn test_half_life_median() {
    let now = SystemTime::now();
    let obs = vec![
        HalfLifeObservation {
            reality_id: "r1".into(),
            committed_at: now,
            invalidated_at: Some(now + Duration::from_secs(100)),
            access_count: 5,
        },
        HalfLifeObservation {
            reality_id: "r2".into(),
            committed_at: now,
            invalidated_at: Some(now + Duration::from_secs(200)),
            access_count: 3,
        },
        HalfLifeObservation {
            reality_id: "r3".into(),
            committed_at: now,
            invalidated_at: Some(now + Duration::from_secs(300)),
            access_count: 1,
        },
    ];
    let hl = compute_half_life(&obs);
    assert_eq!(hl, Duration::from_secs(200));
}

fn snapshot(epoch: u64, v: u64, b: u64, reads: u64, commits: u64, tv: u64, tb: u64) -> MetricsSnapshot {
    MetricsSnapshot {
        epoch: EpochId(epoch),
        inference_count_vantage: v,
        inference_count_baseline: b,
        state_reads: reads,
        reality_commits: commits,
        total_tokens_vantage: tv,
        total_tokens_baseline: tb,
        reality_bytes_stored: 256,
    }
}

#[test]
fn cumulative_totals() {
    let mut cum = CumulativeMetrics::new();
    assert!(cum.latest().is_none());
    cum.record(snapshot(1, 10, 50, 40, 2, 1000, 5000));
    cum.record(snapshot(2, 5, 50, 60, 1, 500, 5000));
    assert_eq!(cum.epoch_count(), 2);
    assert_eq!(cum.latest().unwrap().epoch, EpochId(2));
    assert_eq!(cum.inference_totals(), (15, 100));
    assert_eq!(cum.reuse_totals(), (100, 3));
    assert_eq!(cum.total_tokens_saved(), 8500);
    assert_eq!(cum.snapshots().len(), 2);
}

#[test]
fn tokens_saved_never_negative() {
    assert_eq!(snapshot(1, 0, 0, 0, 0, 700, 100).tokens_saved(), 0);
    assert_eq!(snapshot(1, 0, 0, 0, 0, 100, 700).tokens_saved(), 600);
}

#[test]
fn median_index_picks_middle_of_sorted() {
    assert_eq!(median_index(&[30, 10, 20]), 2);
    assert_eq!(median_index(&[5]), 0);
    let keys = [4u128, 1, 3, 2];
    // ascending 1,2,3,4: index 2 of the sorted order holds 3, at position 2
    assert_eq!(median_index(&keys), 2);
}

#[test]
fn half_life_edges() {
    assert_eq!(compute_half_life(&[]), Duration::from_secs(0));
    let now = SystemTime::now();
    let valid = vec![HalfLifeObservation { reality_id: "r".into(), committed_at: now, invalidated_at: None, access_count: 0 }];
    assert_eq!(compute_half_life(&valid), Duration::from_secs(0));
    let mut node = NodeMetrics::new("n".into());
    node.record_half_life(HalfLifeObservation {
        reality_id: "a".into(),
        committed_at: now,
        invalidated_at: Some(now + Duration::from_secs(7)),
        access_count: 1,
    });
    assert_eq!(node.half_life(), Duration::from_secs(7));
}
