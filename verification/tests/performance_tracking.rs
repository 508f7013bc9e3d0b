use bingo_core::performance_tracking::{
    BottleneckType, ExecutionContext, PerSecond, PerformanceConfig, RulePerformanceTracker,
};
use bingo_core::types::Ratio;
use std::time::Instant;

const MS: u128 = 1_000_000;

fn context() -> ExecutionContext {
    ExecutionContext {
        processing_mode: "sequential".to_string(),
        cache_hit_rate: Ratio { part: 3, whole: 4 },
        nodes_traversed: 12,
        token_operations: 5,
    }
}

fn record(t: &mut RulePerformanceTracker, rule: u64, nanos: u128, fired: bool, memory: usize, now: i64) {
    t.complete_rule_evaluation_at(rule, nanos, 10, if fired { 2 } else { 0 }, fired, memory, context(), now);
}

#[test]
fn test_tracker_defaults() {
    let t = RulePerformanceTracker::new();
    let g = t.get_global_metrics();
    assert_eq!(g.total_evaluations, 0);
    assert_eq!(g.total_firings, 0);
    assert!(t.get_rule_profile(1).is_none());
    let c = PerformanceConfig::default();
    assert_eq!(c.min_execution_time_us, 100);
    assert_eq!(c.max_execution_records, 100);
    assert!(c.enable_timing && c.enable_trend_analysis);
    assert!(t.identify_bottlenecks().is_empty());
    assert_eq!(t.get_performance_summary().total_rules_tracked, 0);
}

#[test]
fn test_evaluation_updates_profile_and_totals() {
    let mut t = RulePerformanceTracker::new();
    record(&mut t, 1, 2 * MS, true, 512, 1_000);
    record(&mut t, 1, 4 * MS, false, 256, 2_000);
    let p = t.get_rule_profile(1).unwrap();
    assert_eq!(p.evaluation_count, 2);
    assert_eq!(p.fire_count, 1);
    assert_eq!(p.success_rate, Ratio { part: 1, whole: 2 });
    assert_eq!(p.timing_stats.total_time, 6 * MS);
    assert_eq!(p.timing_stats.min_time, 2 * MS);
    assert_eq!(p.timing_stats.max_time, 4 * MS);
    assert_eq!(p.memory_stats.total_allocated, 768);
    assert_eq!(p.memory_stats.peak_memory, 512);
    assert_eq!(p.recent_executions.len(), 2);
    assert_eq!(p.recent_executions[1].duration, 4 * MS);
    assert_eq!(p.recent_executions[1].started_at, 2_000);
    assert_eq!(p.performance_trend.len(), 2);
    assert_eq!(p.performance_trend[0].throughput, PerSecond { amount: 1, nanos: 2 * MS });
    assert_eq!(p.last_updated, 2_000);
    let g = t.get_global_metrics();
    assert_eq!(g.total_evaluations, 2);
    assert_eq!(g.total_firings, 1);
    assert_eq!(g.overall_success_rate, Ratio { part: 1, whole: 2 });
    assert_eq!(g.total_processing_time, 6 * MS);
    assert_eq!(g.total_facts_processed, 20);
    assert_eq!(g.total_facts_generated, 2);
    assert_eq!(g.fact_efficiency, Ratio { part: 2, whole: 20 });
    assert_eq!(g.peak_memory_usage, 512);
}

#[test]
fn test_short_evaluation_not_recorded() {
    let mut t = RulePerformanceTracker::new();
    record(&mut t, 4, 99_999, true, 10, 0);
    assert!(t.get_rule_profile(4).is_none());
    assert_eq!(t.get_global_metrics().total_evaluations, 0);
    record(&mut t, 4, 100_000, true, 10, 0);
    assert_eq!(t.get_rule_profile(4).unwrap().evaluation_count, 1);
}

#[test]
fn test_records_window_drops_oldest() {
    let config = PerformanceConfig { max_execution_records: 2, ..PerformanceConfig::default() };
    let mut t = RulePerformanceTracker::with_config(config);
    record(&mut t, 9, MS, true, 1, 1);
    record(&mut t, 9, 2 * MS, true, 1, 2);
    record(&mut t, 9, 3 * MS, true, 1, 3);
    let p = t.get_rule_profile(9).unwrap();
    assert_eq!(p.recent_executions.len(), 2);
    assert_eq!(p.recent_executions[0].started_at, 2);
    assert_eq!(p.recent_executions[1].started_at, 3);
    assert_eq!(p.performance_trend.len(), 3);
}

#[test]
fn test_totals_are_sums_of_rules() {
    let mut t = RulePerformanceTracker::new();
    record(&mut t, 1, MS, true, 1, 0);
    record(&mut t, 2, MS, false, 1, 0);
    record(&mut t, 1, MS, true, 1, 0);
    let evaluations = t.get_rule_profile(1).unwrap().evaluation_count + t.get_rule_profile(2).unwrap().evaluation_count;
    let fires = t.get_rule_profile(1).unwrap().fire_count + t.get_rule_profile(2).unwrap().fire_count;
    assert_eq!(t.get_global_metrics().total_evaluations, evaluations);
    assert_eq!(t.get_global_metrics().total_firings, fires);
    assert_eq!(evaluations, 3);
    assert_eq!(fires, 2);
}

#[test]
fn test_performance_summary_orders() {
    let mut t = RulePerformanceTracker::new();
    record(&mut t, 1, 5 * MS, false, 1, 0);
    record(&mut t, 2, 9 * MS, true, 1, 0);
    record(&mut t, 3, 5 * MS, true, 1, 0);
    record(&mut t, 3, 5 * MS, true, 1, 0);
    let s = t.get_performance_summary();
    assert_eq!(s.total_rules_tracked, 3);
    assert_eq!(s.slowest_rules, vec![(3, 10 * MS), (2, 9 * MS), (1, 5 * MS)]);
    assert_eq!(s.most_fired_rules, vec![(3, 2), (2, 1), (1, 0)]);
    assert_eq!(
        s.least_efficient_rules,
        vec![(1, Ratio { part: 0, whole: 1 }), (2, Ratio { part: 1, whole: 1 }), (3, Ratio { part: 2, whole: 2 })]
    );
    assert_eq!(s.global_metrics.total_evaluations, 4);
}

#[test]
fn test_performance_summary_keeps_ten() {
    let mut t = RulePerformanceTracker::new();
    for rule in 0..12u64 {
        record(&mut t, rule, (rule as u128 + 1) * MS, false, 1, 0);
    }
    let s = t.get_performance_summary();
    assert_eq!(s.total_rules_tracked, 12);
    assert_eq!(s.slowest_rules.len(), 10);
    assert_eq!(s.slowest_rules[0], (11, 12 * MS));
    assert_eq!(s.slowest_rules[9], (2, 3 * MS));
    assert_eq!(s.most_fired_rules[0], (0, 0));
}

#[test]
fn test_slow_rule_bottleneck() {
    let mut t = RulePerformanceTracker::new();
    record(&mut t, 7, 150 * MS, true, 1, 0);
    let b = t.identify_bottlenecks();
    assert_eq!(b.len(), 1);
    assert_eq!(b[0].rule_id, 7);
    assert_eq!(b[0].bottleneck_type, BottleneckType::SlowExecution);
    assert_eq!(b[0].severity, Ratio { part: 950, whole: 1800 });
    assert_eq!(b[0].description, "Rule 7 has slow average execution time: 150ms");
    assert_eq!(b[0].recommendation, "Consider optimizing rule conditions or indexing");
}

#[test]
fn test_average_time_is_the_running_total() {
    let mut t = RulePerformanceTracker::new();
    record(&mut t, 7, 60 * MS, true, 1, 0);
    assert!(t.identify_bottlenecks().is_empty());
    record(&mut t, 7, 60 * MS, true, 1, 0);
    assert_eq!(t.get_rule_profile(7).unwrap().timing_stats.average_time, 120 * MS);
    assert_eq!(t.identify_bottlenecks()[0].bottleneck_type, BottleneckType::SlowExecution);
}

#[test]
fn test_very_slow_rule_is_critical() {
    let mut t = RulePerformanceTracker::new();
    record(&mut t, 8, 2_000 * MS, true, 1, 0);
    let b = t.identify_bottlenecks();
    assert_eq!(b[0].severity, Ratio { part: 1, whole: 1 });
}

#[test]
fn test_low_efficiency_bottleneck() {
    let mut t = RulePerformanceTracker::new();
    for i in 0..101 {
        record(&mut t, 3, 200_000, i == 0, 1, 0);
    }
    let b = t.identify_bottlenecks();
    assert_eq!(b.len(), 1);
    assert_eq!(b[0].bottleneck_type, BottleneckType::LowEfficiency);
    assert_eq!(b[0].severity, Ratio { part: 100, whole: 101 });
    assert_eq!(b[0].description, "Rule 3 has low success rate: 1.0%");
    assert_eq!(b[0].recommendation, "Consider reordering conditions or adding more selective conditions");
}

#[test]
fn test_efficiency_bottleneck_needs_many_evaluations() {
    let mut t = RulePerformanceTracker::new();
    for _ in 0..100 {
        record(&mut t, 3, 200_000, false, 1, 0);
    }
    assert!(t.identify_bottlenecks().is_empty());
}

#[test]
fn test_high_memory_bottleneck() {
    let mut t = RulePerformanceTracker::new();
    record(&mut t, 5, MS, true, 20_000_000, 0);
    let b = t.identify_bottlenecks();
    assert_eq!(b.len(), 1);
    assert_eq!(b[0].bottleneck_type, BottleneckType::HighMemoryUsage);
    assert_eq!(b[0].severity, Ratio { part: 100_000_000, whole: 180_000_000 });
    assert_eq!(b[0].description, "Rule 5 uses high memory: 20MB");
}

#[test]
fn test_session_summary() {
    let mut t = RulePerformanceTracker::new();
    t.start_session_with_id(50, "s1".to_string(), Instant::now());
    let timer = t.start_rule_evaluation(4);
    assert!(timer.is_enabled());
    assert_eq!(timer.rule_id(), 4);
    let _ = t.start_rule_evaluation(4);
    let _ = t.start_rule_evaluation(6);
    record(&mut t, 4, 3 * MS, true, 100, 0);
    record(&mut t, 6, 2 * MS, false, 50, 0);
    let s = t.finish_session_with_duration(10 * MS).unwrap();
    assert_eq!(s.session_id, "s1");
    assert_eq!(s.total_duration, 10 * MS);
    assert_eq!(s.facts_processed, 20);
    assert_eq!(s.rules_fired, 1);
    assert_eq!(s.rules_evaluated, 2);
    assert_eq!(s.memory_used, 150);
    assert_eq!(s.average_throughput, PerSecond { amount: 50, nanos: 10 * MS });
    assert!(t.finish_session_with_duration(0).is_none());
}

#[test]
fn test_start_session_id_shape() {
    let mut t = RulePerformanceTracker::new();
    let id = t.start_session(3);
    assert!(id.starts_with("session_"));
    assert_eq!(id.len(), 44);
    let s = t.finish_session().unwrap();
    assert_eq!(s.session_id, id);
    assert_eq!(s.average_throughput.amount, 3);
    assert!(t.finish_session().is_none());
}

#[test]
fn test_disabled_timing_records_nothing() {
    let config = PerformanceConfig { enable_timing: false, ..PerformanceConfig::default() };
    let mut t = RulePerformanceTracker::with_config(config);
    let timer = t.start_rule_evaluation(2);
    assert!(!timer.is_enabled());
    t.complete_rule_evaluation(timer, 1, 1, true, 1, context());
    assert_eq!(t.get_global_metrics().total_evaluations, 0);
}

#[test]
fn test_timed_evaluation_is_recorded() {
    let config = PerformanceConfig { min_execution_time_us: 0, ..PerformanceConfig::default() };
    let mut t = RulePerformanceTracker::with_config(config);
    let timer = t.start_rule_evaluation(2);
    t.complete_rule_evaluation(timer, 1, 1, true, 1, context());
    let p = t.get_rule_profile(2).unwrap();
    assert_eq!(p.evaluation_count, 1);
    assert_eq!(p.fire_count, 1);
    assert_eq!(p.recent_executions[0].context.nodes_traversed, 12);
}
