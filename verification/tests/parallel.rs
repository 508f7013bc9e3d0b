use bingo_core::parallel::{
    AggregationOp, ParallelAggregationConfig, ParallelAggregationEngine, ParallelAggregator, ParallelConfig,
    WorkerStats,
};
use bingo_core::types::RuleExecutionResult;

#[test]
fn test_parallel_config_defaults() {
    let config = ParallelConfig::default();
    assert!(config.parallel_threshold > 0);
    assert!(config.chunk_size > 0);
    assert!(config.max_workers > 0);
}

#[test]
fn test_parallel_aggregator() {
    let mut aggregator = ParallelAggregator::new();

    let results = vec![];
    let stats = WorkerStats { facts_processed: 10, rules_evaluated: 100, rules_fired: 5, processing_time_ms: 50 };

    aggregator.add_worker_results(0, results, stats).unwrap();

    let all_results = aggregator.get_results().unwrap();
    assert_eq!(all_results.len(), 0);

    let summary = aggregator.get_performance_summary().unwrap();
    assert_eq!(summary.total_facts_processed, 10);
    assert_eq!(summary.total_rules_evaluated, 100);
    assert_eq!(summary.total_rules_fired, 5);
    assert_eq!(summary.worker_count, 1);
}

#[test]
fn test_parallel_config_rule_compilation() {
    let config = ParallelConfig::default();

    if num_cpus::get() > 2 {
        assert!(config.enable_parallel_rule_compilation);
    }

    if num_cpus::get() > 4 {
        assert!(config.enable_parallel_rule_evaluation);
    }
}

#[test]
fn test_parallel_config_custom_settings() {
    let config = ParallelConfig {
        enable_parallel_rule_compilation: false,
        enable_parallel_rule_evaluation: false,
        parallel_threshold: 50,
        chunk_size: 25,
        max_workers: 2,
        ..Default::default()
    };

    assert!(!config.enable_parallel_rule_compilation);
    assert!(!config.enable_parallel_rule_evaluation);
    assert_eq!(config.parallel_threshold, 50);
    assert_eq!(config.chunk_size, 25);
    assert_eq!(config.max_workers, 2);
}

#[test]
fn test_concurrent_memory_pool_config() {
    let config = ParallelConfig::default();

    if num_cpus::get() > 2 {
        assert!(config.enable_concurrent_memory_pools);
    }

    let custom_config = ParallelConfig { enable_concurrent_memory_pools: false, ..Default::default() };
    assert!(!custom_config.enable_concurrent_memory_pools);
}

#[test]
fn test_parallel_aggregation_config() {
    let config = ParallelAggregationConfig::default();

    if num_cpus::get() > 2 {
        assert!(config.enable_parallel_sum);
        assert!(config.enable_parallel_count);
        assert!(config.enable_parallel_min_max);
    }

    if num_cpus::get() > 4 {
        assert!(config.enable_parallel_average);
        assert!(config.enable_parallel_variance);
    }

    let custom_config = ParallelAggregationConfig {
        enable_parallel_sum: false,
        enable_parallel_average: false,
        parallel_threshold: 500,
        chunk_size: 100,
        ..Default::default()
    };

    assert!(!custom_config.enable_parallel_sum);
    assert!(!custom_config.enable_parallel_average);
    assert_eq!(custom_config.parallel_threshold, 500);
    assert_eq!(custom_config.chunk_size, 100);
}

#[test]
fn test_parallel_count_with_predicate() {
    let mut engine = ParallelAggregationEngine::new();

    let values = vec![1, 2, 3, 4, 5, 6, 7, 8, 9, 10];
    let count_even = engine.parallel_count(&values, |x| *x % 2 == 0).unwrap();
    assert_eq!(count_even, 5);

    let count_gt_5 = engine.parallel_count(&values, |x| *x > 5).unwrap();
    assert_eq!(count_gt_5, 5);
}

// Own tests.

#[test]
fn config_for_cpu_counts() {
    let one = ParallelConfig::for_cpu_count(1);
    assert_eq!(one.max_workers, 1);
    assert!(!one.enable_parallel_rule_compilation);
    let eight = ParallelConfig::for_cpu_count(8);
    assert_eq!(eight.max_workers, 8);
    assert!(eight.enable_parallel_rule_compilation);
    assert!(eight.enable_parallel_rule_evaluation);
    let agg = ParallelAggregationConfig::for_cpu_count(3);
    assert!(agg.enable_parallel_sum);
    assert!(!agg.enable_parallel_average);
    assert!(agg.enables(AggregationOp::Count));
    assert!(!agg.enables(AggregationOp::Variance));
}

#[test]
fn record_aggregation_counts_paths() {
    let mut engine = ParallelAggregationEngine::with_config(ParallelAggregationConfig::for_cpu_count(8));
    let threshold = engine.config.parallel_threshold;
    assert!(!engine.record_aggregation(AggregationOp::Sum, 0, 3));
    assert!(engine.record_aggregation(AggregationOp::Sum, threshold, 4));
    let stats = engine.get_stats().unwrap();
    assert_eq!(stats.sequential_fallbacks, 1);
    assert_eq!(stats.parallel_sums, 1);
    assert_eq!(stats.total_aggregation_time_ms, 7);
    engine.reset_stats().unwrap();
    assert_eq!(engine.get_stats().unwrap().parallel_sums, 0);
}

#[test]
fn aggregator_sums_workers_and_replaces_repeated_worker() {
    let mut aggregator = ParallelAggregator::new();
    let r = RuleExecutionResult { rule_id: 1, fact_id: 2 };
    let s1 = WorkerStats { facts_processed: 1, rules_evaluated: 2, rules_fired: 3, processing_time_ms: 10 };
    let s2 = WorkerStats { facts_processed: 4, rules_evaluated: 5, rules_fired: 6, processing_time_ms: 30 };
    aggregator.add_worker_results(0, vec![r], s1).unwrap();
    aggregator.add_worker_results(1, vec![r, r], s2).unwrap();
    assert_eq!(aggregator.get_results().unwrap().len(), 3);
    let summary = aggregator.get_performance_summary().unwrap();
    assert_eq!(summary.total_facts_processed, 5);
    assert_eq!(summary.worker_count, 2);
    assert_eq!(summary.max_worker_time_ms, 30);
}

#[test]
fn aggregator_count() {
    let mut aggregator = ParallelAggregator::new();
    let n = aggregator.parallel_count(&[1u8, 2, 3], |x| *x >= 2).unwrap();
    assert_eq!(n, 2);
}
