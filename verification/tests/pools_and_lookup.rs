use bingo_core::fast_lookup::FastFactLookup;
use bingo_core::memory::{MemoryStats, MemoryTracker};
use bingo_core::memory_pools::{
    ConcurrentMemoryPoolManager, FactFieldMapPool, FactIdVecPool, MemoryPoolManager, NumericVecPool,
    RuleExecutionResultPool, RuleIdVecPool, TokenVecPool,
};
use bingo_core::types::{Fact, FactData, FactId, FactValue, Ratio};

fn percent(r: Ratio) -> f64 {
    if r.whole == 0 {
        0.0
    } else {
        (r.part as f64 / r.whole as f64) * 100.0
    }
}

fn create_test_fact(id: FactId, field_name: &str, field_value: FactValue) -> Fact {
    let mut fields = FactData::new();
    fields.insert(field_name.to_string(), field_value);
    Fact { id, external_id: None, timestamp: chrono::Utc::now().timestamp_millis(), data: fields }
}

#[test]
fn test_rule_execution_result_pool() {
    let mut pool = RuleExecutionResultPool::new();

    let vec1 = pool.get();
    assert!(vec1.is_empty());

    pool.return_vec(vec1);

    let vec2 = pool.get();
    assert!(vec2.is_empty());

    let (hits, misses, pool_size) = pool.stats();
    assert_eq!(hits, 1);
    assert_eq!(misses, 1);
    assert_eq!(pool_size, 0);

    assert_eq!(percent(pool.hit_rate()), 50.0);
}

#[test]
fn test_fast_lookup_basic_operations() {
    let mut lookup = FastFactLookup::new(10);

    let fact1 = create_test_fact(1, "name", FactValue::String("Alice".to_string()));
    let fact2 = create_test_fact(2, "age", FactValue::Integer(30));

    lookup.insert(fact1.clone());
    lookup.insert(fact2.clone());

    assert_eq!(lookup.len(), 2);
    assert!(!lookup.is_empty());

    let retrieved = lookup.get(1).unwrap();
    assert_eq!(retrieved.id, 1);

    let retrieved2 = lookup.get(2).unwrap();
    assert_eq!(retrieved2.id, 2);

    assert!(lookup.get(999).is_none());
}

#[test]
fn test_cache_performance() {
    let mut lookup = FastFactLookup::new(5);

    for i in 1..=10 {
        let fact = create_test_fact(i, "value", FactValue::Integer(i as i64));
        lookup.insert(fact);
    }

    for _ in 0..3 {
        lookup.get(1);
        lookup.get(2);
        lookup.get(3);
    }

    let stats = lookup.stats();

    assert!(stats.cache_hits > 0);
    assert!(stats.cache_misses > 0);
    assert!(percent(stats.hit_rate) > 0.0);
    assert_eq!(stats.total_lookups, 9);
}

#[test]
fn test_batch_operations() {
    let mut lookup = FastFactLookup::new(20);

    let facts: Vec<Fact> = (1..=100).map(|i| create_test_fact(i, "index", FactValue::Integer(i as i64))).collect();

    lookup.extend_from_vec(facts);
    assert_eq!(lookup.len(), 100);

    let fact_ids: Vec<FactId> = (1..=10).collect();
    let retrieved = lookup.get_many(&fact_ids);
    assert_eq!(retrieved.len(), 10);

    for (i, fact) in retrieved.iter().enumerate() {
        assert_eq!(fact.id, (i + 1) as FactId);
    }
}

#[test]
fn test_removal_and_clear() {
    let mut lookup = FastFactLookup::new(10);

    let fact = create_test_fact(42, "test", FactValue::Boolean(true));
    lookup.insert(fact.clone());

    assert!(lookup.contains(42));

    let removed = lookup.remove(42);
    assert!(removed.is_some());
    assert_eq!(removed.unwrap().id, 42);
    assert!(!lookup.contains(42));

    lookup.insert(fact);
    assert!(!lookup.is_empty());
    lookup.clear();
    assert!(lookup.is_empty());
    assert_eq!(lookup.stats().total_lookups, 0);
}

#[test]
fn test_statistics_accuracy() {
    let mut lookup = FastFactLookup::new(3);

    for i in 1..=5 {
        let fact = create_test_fact(i, "num", FactValue::Integer(i as i64));
        lookup.insert(fact);
    }

    lookup.get(1);
    lookup.get(1);
    lookup.get(2);
    lookup.get(2);
    lookup.get(999);

    let stats = lookup.stats();
    assert_eq!(stats.total_lookups, 5);
    assert_eq!(stats.cache_hits, 2);
    assert_eq!(stats.cache_misses, 3);
    assert_eq!(stats.facts_stored, 5);
    assert_eq!(percent(stats.hit_rate), 40.0);
}

#[test]
fn test_memory_stats() {
    let stats = MemoryStats::current(Some("Name:\tx\nVmRSS:\t  2048 kB\n")).unwrap();
    assert!(stats.rss_bytes > 0);

    let formatted = stats.format_rss();
    assert!(formatted.contains("MB"));
}

#[test]
fn test_memory_tracker() {
    let tracker = MemoryTracker::start(Some("VmRSS:\t1024 kB\n")).unwrap();

    let _big_vec: Vec<u8> = vec![0; 1024 * 1024];

    let _delta = tracker.current_delta(Some("VmRSS:\t2048 kB\n")).unwrap();

    let (start, end, final_delta) = tracker.finish(Some("VmRSS:\t3072 kB\n")).unwrap();
    assert!(start.rss_bytes > 0);
    assert!(end.rss_bytes > 0);

    println!(
        "Memory tracking test: start={}, end={}, delta={}",
        start.format_rss(),
        end.format_rss(),
        final_delta
    );
}

// Own tests.

#[test]
fn memory_status_parsing_and_delta() {
    let a = MemoryStats::current(Some("VmPeak:\t9 kB\nVmRSS:\t   10 kB\n")).unwrap();
    assert_eq!(a.rss_bytes, 10 * 1024);
    let b = MemoryStats::current(None).unwrap();
    assert_eq!(b.rss_bytes, 1024 * 1024);
    assert_eq!(b.format_rss(), "1.00 MB");
    assert_eq!(a.delta_from(&b), 10 * 1024 - 1024 * 1024);
    assert_eq!(b.delta_from(&a), 1024 * 1024 - 10 * 1024);
    let tracker = MemoryTracker::start(Some("VmRSS: 100 kB")).unwrap();
    assert_eq!(tracker.current_delta(Some("VmRSS: 150 kB")).unwrap(), 50 * 1024);
}

#[test]
fn pools_reuse_and_limit() {
    let mut pool = RuleIdVecPool::with_capacity(1);
    let a = pool.get();
    let b = pool.get();
    pool.return_vec(a);
    pool.return_vec(b);
    assert_eq!(pool.stats(), (0, 2, 1));
    let _c = pool.get();
    assert_eq!(pool.stats(), (1, 2, 0));
    let mut ids = FactIdVecPool::new();
    let mut v = ids.get();
    v.push(7);
    ids.return_vec(v);
    assert!(ids.get().is_empty());
    let mut maps = FactFieldMapPool::new();
    let mut m = maps.get();
    m.insert("k".to_string(), FactValue::Null);
    maps.return_map(m);
    assert_eq!(maps.get().len(), 0);
    assert_eq!(percent(maps.hit_rate()), 50.0);
}

#[test]
fn concurrent_manager_enable_switch() {
    let mut manager = ConcurrentMemoryPoolManager::new();
    assert!(manager.is_enabled());
    manager.set_enabled(false);
    assert!(!manager.is_enabled());
    let _ = ConcurrentMemoryPoolManager::with_high_throughput_config();
}

#[test]
fn lookup_get_many_skips_missing() {
    let mut lookup = FastFactLookup::new(2);
    lookup.insert(create_test_fact(1, "a", FactValue::Null));
    lookup.insert(create_test_fact(3, "a", FactValue::Null));
    let got = lookup.get_many(&[3, 2, 1]);
    let ids: Vec<FactId> = got.iter().map(|f| f.id).collect();
    assert_eq!(ids, vec![3, 1]);
    let mut all = lookup.fact_ids();
    all.sort();
    assert_eq!(all, vec![1, 3]);
}

/// Stands for the beta network's token in the token pool.
#[derive(Debug, Clone, PartialEq)]
struct Token {
    fact_ids: Vec<FactId>,
}

#[test]
fn test_memory_pool_manager() {
    let mut manager: MemoryPoolManager<f64, Token> = MemoryPoolManager::new();

    // Test each pool
    let _rule_results = manager.rule_execution_results.get();
    let _rule_ids = manager.rule_id_vecs.get();
    let _fact_ids = manager.fact_id_vecs.get();
    let _fact_map = manager.fact_field_maps.get();
    let _numbers = manager.numeric_vecs.get();
    let _tokens = manager.token_vecs.get();

    let stats = manager.get_comprehensive_stats();

    // All should be misses initially
    assert_eq!(stats.rule_execution_result_pool.misses, 1);
    assert_eq!(stats.rule_id_vec_pool.misses, 1);
    assert_eq!(stats.fact_id_vec_pool.misses, 1);
    assert_eq!(stats.fact_field_map_pool.misses, 1);
    assert_eq!(stats.numeric_vec_pool.misses, 1);
    assert_eq!(stats.token_vec_pool.misses, 1);

    // Overall efficiency should be 0% (all misses)
    assert_eq!(percent(manager.overall_efficiency()), 0.0);
}

#[test]
fn test_high_throughput_config() {
    let mut manager: MemoryPoolManager<f64, Token> = MemoryPoolManager::with_high_throughput_config();

    // Test that it can handle many allocations efficiently
    for _ in 0..100 {
        let vec = manager.rule_id_vecs.get();
        manager.rule_id_vecs.return_vec(vec);
    }

    let stats = manager.get_comprehensive_stats();
    assert!(percent(stats.rule_id_vec_pool.hit_rate) > 90.0); // Should have high hit rate
}

#[test]
fn test_memory_savings_estimation() {
    let mut manager: MemoryPoolManager<f64, Token> = MemoryPoolManager::new();

    // Simulate some pool usage
    for _ in 0..10 {
        let vec = manager.rule_execution_results.get();
        manager.rule_execution_results.return_vec(vec);
    }

    let stats = manager.get_comprehensive_stats();
    let memory_saved = stats.estimated_memory_saved_bytes();

    // Should estimate some memory savings
    assert!(memory_saved > 0);
}

#[test]
fn test_memory_pool_manager_exact_counts() {
    let mut manager: MemoryPoolManager<f64, Token> = MemoryPoolManager::new();
    let mut numbers = manager.numeric_vecs.get();
    numbers.push(1.5);
    manager.numeric_vecs.return_vec(numbers);
    let again = manager.numeric_vecs.get();
    assert!(again.is_empty());
    let tokens = vec![Token { fact_ids: vec![1, 2] }];
    manager.token_vecs.return_vec(tokens);
    let stats = manager.get_comprehensive_stats();
    assert_eq!((stats.numeric_vec_pool.hits, stats.numeric_vec_pool.misses, stats.numeric_vec_pool.pool_size), (1, 1, 0));
    assert_eq!(stats.token_vec_pool.pool_size, 1);
    assert_eq!(stats.estimated_memory_saved_bytes(), 96);
    let utilization = stats.total_pool_utilization();
    assert_eq!((utilization.part, utilization.whole), (1, 1050));
    let efficiency = manager.overall_efficiency();
    assert_eq!((efficiency.part, efficiency.whole), (1, 2));
    assert_eq!(percent(stats.numeric_vec_pool.hit_rate), 50.0);
    let small: NumericVecPool<f64> = NumericVecPool::with_capacity(0);
    assert_eq!(small.stats(), (0, 0, 0));
    let tokens: TokenVecPool<Token> = TokenVecPool::default();
    assert_eq!(tokens.stats(), (0, 0, 0));
}

#[test]
fn test_concurrent_pool_statistics() {
    let mut manager = ConcurrentMemoryPoolManager::new();
    let v = manager.rule_execution_results.get();
    manager.rule_execution_results.return_vec(v);
    let v = manager.rule_execution_results.get();
    let ids = manager.rule_id_vecs.get();
    manager.rule_id_vecs.return_vec(ids);
    let stats = manager.get_concurrent_stats();
    assert!(stats.enabled);
    assert_eq!((stats.rule_execution_result_pool.hits, stats.rule_execution_result_pool.misses), (1, 1));
    assert_eq!(stats.rule_execution_result_pool.pool_size, 0);
    assert_eq!((stats.rule_id_vec_pool.hits, stats.rule_id_vec_pool.misses, stats.rule_id_vec_pool.pool_size), (0, 1, 1));
    assert_eq!(percent(stats.rule_execution_result_pool.hit_rate), 50.0);
    assert_eq!(stats.estimated_memory_saved_bytes(), 128);
    let u = stats.total_pool_utilization();
    assert_eq!((u.part, u.whole), (1, 300));
    let e = manager.total_efficiency();
    assert_eq!((e.part, e.whole), (1, 3));
    drop(v);
}
