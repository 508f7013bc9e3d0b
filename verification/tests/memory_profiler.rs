use bingo_core::memory_profiler::{
    growth_above, growth_near, is_fragmented, Fragmentation, GrowthRate, MemoryPressureLevel, MemoryPressureThresholds,
    MemoryProfilerConfig, MemoryRecommendation, OptimizationEventType, ReteMemoryProfiler, Trend,
};
use bingo_core::wide::{mul_wide, wide_gt};

const SECOND: u128 = 1_000_000_000;

fn small_config() -> MemoryProfilerConfig {
    MemoryProfilerConfig {
        collection_interval_ms: 10_000,
        pressure_thresholds: MemoryPressureThresholds { moderate_threshold: 100, high_threshold: 200, critical_threshold: 300 },
        enable_auto_optimization: true,
        max_growth_rate: 10_485_760,
        history_retention_ms: 20_000,
    }
}

#[test]
fn test_profiler_defaults() {
    let profiler = ReteMemoryProfiler::new();
    assert_eq!(profiler.get_pressure_level(), MemoryPressureLevel::Normal);
    assert_eq!(profiler.get_total_allocated_memory(), 0);
    let c = profiler.get_config();
    assert_eq!(c.collection_interval_ms, 10_000);
    assert_eq!(c.pressure_thresholds.moderate_threshold, 100 * 1024 * 1024);
    assert_eq!(c.pressure_thresholds.high_threshold, 250 * 1024 * 1024);
    assert_eq!(c.pressure_thresholds.critical_threshold, 500 * 1024 * 1024);
    assert!(c.enable_auto_optimization);
    assert_eq!(c.max_growth_rate, 10 * 1024 * 1024);
    assert_eq!(c.history_retention_ms, 30 * 60 * 1000);
    assert!(profiler.get_optimization_events().is_empty());
    assert!(profiler.get_all_component_stats().len() == 0);
    assert!(MemoryPressureLevel::Normal < MemoryPressureLevel::Critical);
}

#[test]
fn test_allocation_accounting() {
    let mut p = ReteMemoryProfiler::with_config(small_config());
    p.record_allocation_at("alpha", 1000, 10, 5, 5);
    let s = p.get_component_stats("alpha").unwrap();
    assert_eq!(s.component_name, "alpha");
    assert_eq!((s.allocated_bytes, s.peak_allocated_bytes, s.allocation_count), (1000, 1000, 10));
    assert_eq!(s.average_object_size, 100);
    assert_eq!(s.growth, GrowthRate { bytes: 0, nanos: 0 });
    assert_eq!(s.measurement_timestamp, 5);

    p.record_allocation_at("alpha", 500, 5, 0, SECOND + 5);
    let s = p.get_component_stats("alpha").unwrap();
    assert_eq!((s.allocated_bytes, s.peak_allocated_bytes, s.allocation_count), (1500, 1500, 15));
    assert_eq!(s.growth, GrowthRate { bytes: 500, nanos: SECOND });
    assert_eq!(s.measurement_timestamp, SECOND + 5);

    p.record_deallocation_at("alpha", 1200, 12, SECOND + 10);
    let s = p.get_component_stats("alpha").unwrap();
    assert_eq!((s.allocated_bytes, s.peak_allocated_bytes, s.deallocation_count), (300, 1500, 12));
    assert_eq!(s.average_object_size, 100);
    assert_eq!(s.measurement_timestamp, SECOND + 10);

    // Freeing more than is held stops at zero.
    p.record_deallocation_at("alpha", 5000, 10, SECOND + 20);
    let s = p.get_component_stats("alpha").unwrap();
    assert_eq!((s.allocated_bytes, s.average_object_size), (0, 0));

    // A component never seen is not recorded by a deallocation.
    p.record_deallocation_at("beta", 10, 1, 0);
    assert!(p.get_component_stats("beta").is_none());
    assert_eq!(p.get_total_allocated_memory(), 0);
}

#[test]
fn test_pressure_levels() {
    let mut p = ReteMemoryProfiler::with_config(small_config());
    p.record_allocation_at("a", 99, 1, 0, 0);
    assert_eq!(p.get_pressure_level(), MemoryPressureLevel::Normal);
    p.record_allocation_at("b", 1, 1, 0, 0);
    assert_eq!(p.get_pressure_level(), MemoryPressureLevel::Moderate);
    p.record_allocation_at("a", 100, 1, 0, 0);
    assert_eq!(p.get_pressure_level(), MemoryPressureLevel::High);
    p.record_allocation_at("c", 100, 1, 0, 0);
    assert_eq!(p.get_pressure_level(), MemoryPressureLevel::Critical);
    assert_eq!(p.get_total_allocated_memory(), 300);
    p.record_deallocation_at("c", 100, 1, 0);
    assert_eq!(p.get_pressure_level(), MemoryPressureLevel::High);
}

#[test]
fn test_utilization_and_fragmentation() {
    let mut p = ReteMemoryProfiler::with_config(small_config());
    p.record_allocation_at("frag", 10, 60_000, 0, 0);
    p.update_utilization_at("frag", 0, 0, 7);
    let s = p.get_component_stats("frag").unwrap();
    assert_eq!((s.utilization.part, s.utilization.whole), (0, 0));
    assert_eq!(s.fragmentation, Fragmentation { allocations: 60_000, deallocations: 0, used: 0, total: 0 });
    assert_eq!(s.measurement_timestamp, 7);
    assert!(is_fragmented(s.fragmentation));
    // Utilization of an unknown component is not recorded.
    p.update_utilization_at("none", 1, 2, 8);
    assert!(p.get_component_stats("none").is_none());
}

#[test]
fn test_fragmentation_threshold() {
    // 50 000 objects with nothing freed score exactly 50: not above it.
    assert!(!is_fragmented(Fragmentation { allocations: 50_000, deallocations: 0, used: 0, total: 0 }));
    assert!(is_fragmented(Fragmentation { allocations: 50_001, deallocations: 0, used: 0, total: 0 }));
    // Half the capacity unused halves the score.
    assert!(!is_fragmented(Fragmentation { allocations: 90_000, deallocations: 0, used: 50, total: 100 }));
    assert!(is_fragmented(Fragmentation { allocations: 110_000, deallocations: 0, used: 50, total: 100 }));
    // Full or over-full capacity: no fragmentation.
    assert!(!is_fragmented(Fragmentation { allocations: 1_000_000, deallocations: 1, used: 100, total: 100 }));
    assert!(!is_fragmented(Fragmentation { allocations: 1_000_000, deallocations: 1, used: 200, total: 100 }));
    // Allocations per deallocation scale the score.
    assert!(is_fragmented(Fragmentation { allocations: 20_000, deallocations: 10_000, used: 0, total: 0 }));
    assert!(!is_fragmented(Fragmentation { allocations: 0, deallocations: 100_000, used: 0, total: 0 }));
    // Large counts are compared exactly.
    let big = usize::MAX / 2;
    assert!(is_fragmented(Fragmentation { allocations: big, deallocations: big, used: 1, total: usize::MAX }));
}

#[test]
fn test_growth_comparisons() {
    let max = 10 * 1024 * 1024u64;
    assert!(!growth_above(GrowthRate { bytes: 10_485_760, nanos: SECOND }, max));
    assert!(growth_above(GrowthRate { bytes: 10_485_761, nanos: SECOND }, max));
    assert!(!growth_above(GrowthRate { bytes: 1_000_000, nanos: 0 }, max));
    assert!(!growth_near(GrowthRate { bytes: 8_388_608, nanos: SECOND }, max));
    assert!(growth_near(GrowthRate { bytes: 8_388_609, nanos: SECOND }, max));
    assert!(growth_near(GrowthRate { bytes: 1, nanos: 1 }, max));
    assert!(!growth_near(GrowthRate { bytes: 1, nanos: u128::MAX }, max));
    assert!(growth_near(GrowthRate { bytes: 1, nanos: u128::MAX }, 0));
}

#[test]
fn test_wide_arithmetic() {
    let (h, l) = mul_wide(u128::MAX, u64::MAX);
    // (2^128 - 1)(2^64 - 1) = 2^192 - 2^128 - 2^64 + 1
    assert_eq!(h, u128::MAX - (u64::MAX as u128) - 1);
    assert_eq!(l, 1);
    assert_eq!(mul_wide(3, 4), (0, 12));
    assert_eq!(mul_wide(1u128 << 64, 2), (2, 0));
    assert!(wide_gt((1, 0), (0, u64::MAX)));
    assert!(!wide_gt((0, 5), (0, 5)));
}

#[test]
fn test_collection_and_growth_events() {
    let mut p = ReteMemoryProfiler::with_config(small_config());
    p.record_allocation_at("fast", 11_534_336, 1, 0, 0);
    p.record_deallocation_at("fast", 11_534_336, 1, 0);
    p.record_allocation_at("fast", 11_534_336, 1, 0, SECOND);
    p.record_deallocation_at("fast", 11_534_336, 0, SECOND);
    // Not yet due: nothing is collected.
    p.collect_statistics_at(5 * SECOND);
    assert_eq!(p.get_last_collection_time(), 0);
    assert!(p.get_optimization_events().is_empty());
    // Due: a snapshot and, without pressure, a capacity cut for the fast grower.
    p.collect_statistics_at(10 * SECOND);
    assert_eq!(p.get_last_collection_time(), 10 * SECOND);
    let events = p.get_optimization_events();
    assert_eq!(events.len(), 1);
    assert_eq!(events[0].event_type, OptimizationEventType::CapacityReduction);
    assert_eq!(events[0].component, "fast");
    assert_eq!(events[0].bytes_freed, 0);
    assert_eq!(events[0].timestamp, 10 * SECOND);
    assert_eq!(events[0].description, "Growth rate limit exceeded: 11534336.0 bytes/sec");
}

#[test]
fn test_pressure_cleanups() {
    let mut p = ReteMemoryProfiler::with_config(small_config());
    p.record_allocation_at("big", 350, 1, 0, 0);
    p.collect_statistics_at(10 * SECOND);
    p.record_deallocation_at("big", 100, 0, 0);
    p.collect_statistics_at(20 * SECOND);
    p.record_deallocation_at("big", 100, 0, 0);
    p.collect_statistics_at(30 * SECOND);
    let d: Vec<&str> = p.get_optimization_events().iter().map(|e| e.description.as_str()).collect();
    assert_eq!(
        d,
        vec![
            "Emergency cleanup triggered by critical memory pressure",
            "Aggressive cleanup triggered by high memory pressure",
            "Conservative cleanup triggered by moderate memory pressure",
        ]
    );
    assert!(p.get_optimization_events().iter().all(|e| e.component == "all"));

    let mut quiet = small_config();
    quiet.enable_auto_optimization = false;
    let mut q = ReteMemoryProfiler::with_config(quiet);
    q.record_allocation_at("big", 350, 1, 0, 0);
    q.collect_statistics_at(10 * SECOND);
    assert!(q.get_optimization_events().is_empty());
    assert_eq!(q.get_pressure_level(), MemoryPressureLevel::Critical);
}

#[test]
fn test_report_and_trends() {
    let mut p = ReteMemoryProfiler::with_config(small_config());
    p.record_allocation_at("a", 40, 4, 0, 0);
    p.collect_statistics_at(10 * SECOND);
    p.record_allocation_at("b", 2_000_000, 2, 0, 0);
    p.update_utilization_at("b", 10, 100, 0);
    p.collect_statistics_at(20 * SECOND);
    let report = p.generate_report_at(25 * SECOND);
    assert_eq!(report.timestamp, 25 * SECOND);
    assert_eq!(report.total_allocated_bytes, 2_000_040);
    assert_eq!(report.total_peak_bytes, 2_000_040);
    assert_eq!(report.pressure_level, MemoryPressureLevel::Critical);
    assert_eq!(report.component_count, 2);
    assert_eq!(report.components_by_usage[0].component_name, "a");
    assert_eq!(report.memory_growth_trend, Trend { change: 2_000_000, nanos: 10 * SECOND });
    assert_eq!(report.allocation_trend, Trend { change: 2, nanos: 10 * SECOND });
    assert_eq!(report.optimization_events_count, 1);
    assert_eq!(report.recommendations.len(), 1);
    match &report.recommendations[0] {
        MemoryRecommendation::ReduceCapacity { component, utilization } => {
            assert_eq!(component, "b");
            assert_eq!((utilization.part, utilization.whole), (10, 100));
        },
        other => panic!("unexpected recommendation {:?}", other),
    }
    // Samples older than the retention time are dropped.
    p.collect_statistics_at(35 * SECOND);
    let later = p.generate_report_at(35 * SECOND);
    assert_eq!(later.memory_growth_trend, Trend { change: 0, nanos: 15 * SECOND });
    assert_eq!(later.allocation_trend, Trend { change: 0, nanos: 15 * SECOND });
}

#[test]
fn test_single_sample_has_no_trend() {
    let mut p = ReteMemoryProfiler::with_config(small_config());
    p.record_allocation_at("a", 1, 1, 0, 0);
    p.collect_statistics_at(10 * SECOND);
    let report = p.generate_report_at(11 * SECOND);
    assert_eq!(report.memory_growth_trend, Trend { change: 0, nanos: 0 });
    assert_eq!(report.allocation_trend, Trend { change: 0, nanos: 0 });
}

#[test]
fn test_reset() {
    let mut p = ReteMemoryProfiler::with_config(small_config());
    p.record_allocation_at("a", 500, 1, 0, 0);
    p.collect_statistics_at(10 * SECOND);
    p.reset_at(12 * SECOND);
    assert_eq!(p.get_total_allocated_memory(), 0);
    assert_eq!(p.get_pressure_level(), MemoryPressureLevel::Normal);
    assert!(p.get_optimization_events().is_empty());
    assert_eq!(p.get_last_collection_time(), 12 * SECOND);
    assert!(p.get_component_stats("a").is_none());
}

#[test]
fn test_clock_driven_operations() {
    let mut p = ReteMemoryProfiler::default();
    p.record_allocation("pool", 4096, 4);
    p.update_utilization("pool", 3, 4);
    p.record_deallocation("pool", 1024, 1);
    p.collect_statistics();
    let report = p.generate_report();
    assert_eq!(report.total_allocated_bytes, 3072);
    assert_eq!(report.component_count, 1);
    p.reset();
    assert_eq!(p.get_total_allocated_memory(), 0);
}
