use vantage::base::{EpochId, ResourceId};
use vantage::benchmark::{
    classify_scanned_files, execute_benchmark, generate_repo_scenarios, multi_file_edit_scenario,
    normalize_separators, repo_edit_scenario, run_multi_epoch_benchmark, BenchmarkOp, RepoScanResult, Strategy,
};

#[test]
fn test_inference_only_all_ops_cost_inference() {
    let ops = vec![
        BenchmarkOp::Read { resource: ResourceId("repo".into()), size_tokens: 100 },
        BenchmarkOp::Search { query: "search".into(), size_tokens: 50 },
        BenchmarkOp::Edit { target: ResourceId("file.rs".into()), size_tokens: 200 },
    ];
    let run = execute_benchmark(&ops, Strategy::InferenceOnly);
    assert_eq!(run.total_inferences, 3);
    assert_eq!(run.state_reads, 0);
    assert_eq!(run.reality_commits, 0);
}

#[test]
fn test_state_cached_avoids_repeat_inference() {
    let ops = vec![
        BenchmarkOp::Read { resource: ResourceId("repo".into()), size_tokens: 100 },
        BenchmarkOp::Edit { target: ResourceId("file.rs".into()), size_tokens: 200 },
        BenchmarkOp::RepeatQuery { query: "q1".into(), resource: ResourceId("file.rs".into()), size_tokens: 50 },
        BenchmarkOp::RepeatQuery { query: "q2".into(), resource: ResourceId("file.rs".into()), size_tokens: 50 },
    ];
    let vantage = execute_benchmark(&ops, Strategy::StateCached);
    assert_eq!(vantage.total_inferences, 2);
    assert_eq!(vantage.state_reads, 2);
    assert_eq!(vantage.reality_commits, 1);

    let baseline = execute_benchmark(&ops, Strategy::InferenceOnly);
    assert_eq!(baseline.total_inferences, 4);
    assert_eq!(baseline.state_reads, 0);
}

#[test]
fn test_state_cached_miss_falls_back_to_inference() {
    let ops = vec![BenchmarkOp::ReadState { resource: ResourceId("unknown.rs".into()) }];
    let vantage = execute_benchmark(&ops, Strategy::StateCached);
    assert_eq!(vantage.total_inferences, 1);
    assert_eq!(vantage.state_reads, 0);
}

#[test]
fn test_scenario_generation() {
    let scan = RepoScanResult {
        primary_files: vec![(ResourceId("a.rs".into()), 100), (ResourceId("b.rs".into()), 200)],
        secondary_files: vec![],
    };
    let scenarios = generate_repo_scenarios(&scan);
    assert_eq!(scenarios.len(), 3);
    assert_eq!(scenarios[0].0, "Feature Addition");
    assert_eq!(scenarios[1].0, "Bug Fix");
    assert_eq!(scenarios[2].0, "Core Refactoring");
}

#[test]
fn repo_edit_scenario_counts() {
    let ops = repo_edit_scenario(5);
    assert_eq!(ops.len(), 8);
    let baseline = execute_benchmark(&ops, Strategy::InferenceOnly);
    let cached = execute_benchmark(&ops, Strategy::StateCached);
    assert_eq!(baseline.total_inferences, 8);
    assert_eq!(cached.total_inferences, 3);
    assert_eq!(cached.state_reads, 5);
    assert_eq!(baseline.total_inferences - cached.total_inferences, 5);
}

#[test]
fn multi_epoch_benchmark_counts() {
    let scenario = multi_file_edit_scenario(&["auth.rs", "db.rs", "api.rs"]);
    assert_eq!(scenario.len(), 3);
    let results = run_multi_epoch_benchmark(scenario);
    assert_eq!(results.len(), 3);
    for (i, (epoch, baseline, cached)) in results.iter().enumerate() {
        assert_eq!(*epoch, EpochId(i as u64 + 1));
        assert_eq!(baseline.total_inferences, 5);
        assert_eq!(cached.total_inferences, 3);
        assert_eq!(cached.state_reads, 2);
        assert_eq!(cached.reality_commits, 1);
    }
}

#[test]
fn snapshot_of_run_puts_counts_on_its_side() {
    let ops = repo_edit_scenario(2);
    let cached = execute_benchmark(&ops, Strategy::StateCached);
    let snap = cached.to_snapshot(EpochId(4));
    assert_eq!(snap.epoch, EpochId(4));
    assert_eq!(snap.inference_count_baseline, 0);
    assert_eq!(snap.inference_count_vantage, cached.total_inferences);
    assert_eq!(snap.state_reads, cached.state_reads);
}

#[test]
fn classify_files_by_extension() {
    let files = vec![
        ("src/a.rs".to_string(), "rs".to_string(), 40u64),
        ("README.md".to_string(), "md".to_string(), 2),
        ("img.png".to_string(), "png".to_string(), 999),
        ("web/x.tsx".to_string(), "tsx".to_string(), 400),
    ];
    let scan = classify_scanned_files(files);
    assert_eq!(scan.primary_files.len(), 2);
    assert_eq!(scan.primary_files[0].0, ResourceId("src/a.rs".into()));
    assert_eq!(scan.primary_files[0].1, 10);
    assert_eq!(scan.primary_files[1].1, 100);
    assert_eq!(scan.secondary_files.len(), 1);
    assert_eq!(scan.secondary_files[0].1, 1);
    assert_eq!(normalize_separators("a\\b\\c.rs"), "a/b/c.rs");
}

#[test]
fn scenarios_on_empty_scan() {
    let scan = RepoScanResult { primary_files: vec![], secondary_files: vec![] };
    let scenarios = generate_repo_scenarios(&scan);
    assert!(scenarios.is_empty());
}
