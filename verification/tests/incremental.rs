use bingo_core::incremental_construction::{IncrementalConstructionManager, NetworkTopology, NodeActivationState};
use bingo_core::incremental_processing::{compute_fact_hash, FactChangeTracker, FactState, IncrementalProcessingPlan, ProcessingMode};
use bingo_core::types::{Fact, FactData, FactValue, Ratio};

fn percent(r: Ratio) -> f64 {
    if r.whole == 0 {
        0.0
    } else {
        (r.part as f64 / r.whole as f64) * 100.0
    }
}

fn create_test_fact(id: u64, value: i64) -> Fact {
    let mut fields = FactData::new();
    fields.insert("value".to_string(), FactValue::Integer(value));
    Fact::new(id, fields)
}

#[test]
fn test_network_topology() {
    let mut topology = NetworkTopology::new();

    topology.add_node(1);
    topology.add_node(2);
    topology.add_node(3);

    topology.add_edge(1, 2);
    topology.add_edge(2, 3);

    let path = topology.find_path(1, 3);
    assert_eq!(path, Some(vec![1, 2, 3]));

    let no_path = topology.find_path(3, 1);
    assert_eq!(no_path, None);
}

#[test]
fn test_change_detection_new_facts() {
    let mut tracker = FactChangeTracker::new();

    let facts = vec![create_test_fact(1, 100), create_test_fact(2, 200)];

    let plan = tracker.detect_changes(&facts);

    assert_eq!(plan.new_facts.len(), 2);
    assert_eq!(plan.modified_facts.len(), 0);
    assert_eq!(plan.unchanged_facts.len(), 0);
    assert_eq!(tracker.stats.new_facts, 2);
    assert_eq!(percent(tracker.stats.efficiency()), 0.0);
}

#[test]
fn test_change_detection_unchanged_facts() {
    let mut tracker = FactChangeTracker::new();

    let facts = vec![create_test_fact(1, 100), create_test_fact(2, 200)];

    let _plan1 = tracker.detect_changes(&facts);

    let plan2 = tracker.detect_changes(&facts);

    assert_eq!(plan2.new_facts.len(), 0);
    assert_eq!(plan2.modified_facts.len(), 0);
    assert_eq!(plan2.unchanged_facts.len(), 2);
    assert_eq!(tracker.stats.unchanged_facts, 2);
    assert_eq!(percent(tracker.stats.efficiency()), 100.0);
}

#[test]
fn test_change_detection_modified_facts() {
    let mut tracker = FactChangeTracker::new();

    let facts = vec![create_test_fact(1, 100), create_test_fact(2, 200)];

    let _plan1 = tracker.detect_changes(&facts);

    let modified_facts = vec![create_test_fact(1, 150), create_test_fact(2, 200)];

    let plan2 = tracker.detect_changes(&modified_facts);

    assert_eq!(plan2.new_facts.len(), 0);
    assert_eq!(plan2.modified_facts.len(), 1);
    assert_eq!(plan2.unchanged_facts.len(), 1);
    assert_eq!(tracker.stats.modified_facts, 1);
    assert_eq!(tracker.stats.unchanged_facts, 1);
    assert_eq!(percent(tracker.stats.efficiency()), 50.0);
}

#[test]
fn test_deleted_fact_detection() {
    let mut tracker = FactChangeTracker::new();

    let facts = vec![create_test_fact(1, 100), create_test_fact(2, 200), create_test_fact(3, 300)];

    let _plan1 = tracker.detect_changes(&facts);

    let reduced_facts = vec![create_test_fact(1, 100), create_test_fact(2, 200)];

    let plan2 = tracker.detect_changes(&reduced_facts);

    assert_eq!(plan2.deleted_fact_ids.len(), 1);
    assert_eq!(plan2.deleted_fact_ids[0], 3);
    assert_eq!(tracker.stats.deleted_facts, 1);
}

#[test]
fn test_processing_plan_efficiency() {
    let plan = IncrementalProcessingPlan {
        new_facts: vec![create_test_fact(1, 100)],
        modified_facts: vec![create_test_fact(2, 200)],
        unchanged_facts: vec![create_test_fact(3, 300), create_test_fact(4, 400), create_test_fact(5, 500)],
        deleted_fact_ids: vec![],
    };

    assert_eq!(plan.processing_count(), 2);
    assert_eq!(plan.total_facts(), 5);
    assert_eq!(percent(plan.efficiency()), 60.0);
    assert!(plan.needs_processing());
}

#[test]
fn test_fact_hash_consistency() {
    let fact1 = create_test_fact(1, 100);
    let fact2 = create_test_fact(1, 100);
    let fact3 = create_test_fact(1, 200);

    let hash1 = compute_fact_hash(&fact1);
    let hash2 = compute_fact_hash(&fact2);
    let hash3 = compute_fact_hash(&fact3);

    assert_eq!(hash1, hash2);
    assert_ne!(hash1, hash3);
}

// Own tests.

#[test]
fn fact_hash_ignores_field_order() {
    let mut a = FactData::new();
    a.insert("x".to_string(), FactValue::Integer(1));
    a.insert("y".to_string(), FactValue::Boolean(false));
    let mut b = FactData::new();
    b.insert("y".to_string(), FactValue::Boolean(false));
    b.insert("x".to_string(), FactValue::Integer(1));
    assert_eq!(compute_fact_hash(&Fact::new(4, a)), compute_fact_hash(&Fact::new(4, b)));
}

#[test]
fn fact_states_and_reprocessing() {
    let mut tracker = FactChangeTracker::new();
    let facts = vec![create_test_fact(1, 1), create_test_fact(2, 2)];
    tracker.detect_changes(&facts);
    assert_eq!(tracker.get_fact_state(1), Some(&FactState::New));
    tracker.detect_changes(&facts[..1]);
    assert_eq!(tracker.get_fact_state(1), Some(&FactState::Unchanged));
    assert_eq!(tracker.get_fact_state(2), Some(&FactState::Deleted));
    tracker.mark_for_reprocessing(1);
    assert_eq!(tracker.get_fact_state(1), Some(&FactState::Modified));
    let plan = tracker.detect_changes(&facts[..1]);
    assert_eq!(plan.new_facts.len(), 1);
    assert_eq!(plan.unchanged_facts.len(), 0);
    tracker.clear();
    assert_eq!(tracker.get_fact_state(1), None);
}

#[test]
fn change_rate_and_empty_plan() {
    let mut tracker = FactChangeTracker::new();
    let plan = tracker.detect_changes(&[]);
    assert!(!plan.needs_processing());
    assert_eq!(plan.total_facts(), 0);
    assert_eq!(percent(plan.efficiency()), 0.0);
    tracker.detect_changes(&[create_test_fact(1, 1)]);
    assert_eq!(percent(tracker.stats.change_rate()), 100.0);
}

#[test]
fn topology_path_to_self_and_missing_nodes() {
    let mut topology = NetworkTopology::new();
    topology.add_node(1);
    assert_eq!(topology.find_path(1, 1), Some(vec![1]));
    assert_eq!(topology.find_path(1, 9), None);
    topology.add_edge(1, 2);
    topology.add_edge(2, 4);
    topology.add_edge(1, 3);
    topology.add_edge(3, 4);
    let p = topology.find_path(1, 4).unwrap();
    assert_eq!(p.len(), 3);
    assert_eq!(p[0], 1);
    assert_eq!(p[2], 4);
}

#[test]
fn test_node_activation() {
    let mut manager = IncrementalConstructionManager::new();

    manager.register_node(1, NodeActivationState::Inactive);
    assert!(!manager.is_node_active(1));

    let activated = manager.activate_node(1, Some(100));
    assert!(activated);
    assert!(manager.is_node_active(1));

    let activated_again = manager.activate_node(1, Some(101));
    assert!(!activated_again);
}

#[test]
fn test_node_deactivation() {
    let mut manager = IncrementalConstructionManager::new();

    manager.register_node(1, NodeActivationState::Active);
    assert!(manager.is_node_active(1));

    let deactivated = manager.deactivate_node(1);
    assert!(deactivated);
    assert!(!manager.is_node_active(1));
}

#[test]
fn test_join_path_statistics() {
    let mut manager = IncrementalConstructionManager::new();

    manager.record_join_attempt(1, 2, true, 5);
    manager.record_join_attempt(1, 2, true, 3);
    manager.record_join_attempt(1, 2, false, 0);

    let efficiency = percent(manager.get_join_path_efficiency(1, 2)) / 100.0;
    assert!((efficiency - 0.6667).abs() < 0.001);

    let stats = manager.get_join_path_stats(1, 2).unwrap();
    assert_eq!(stats.successful_joins, 2);
    assert_eq!(stats.failed_joins, 1);
    assert_eq!(stats.avg_tokens_produced.part as f64 / stats.avg_tokens_produced.whole as f64, 4.0);
}

#[test]
fn test_rule_node_tracking() {
    let mut manager = IncrementalConstructionManager::new();

    let rule_nodes = vec![1, 2, 3];
    manager.register_rule_nodes(100, &rule_nodes);

    let unregistered = manager.unregister_rule_nodes(100);
    assert!(unregistered.is_some());
    let tracked_nodes = unregistered.unwrap();
    assert_eq!(tracked_nodes.len(), 3);
    assert!(tracked_nodes.contains(&1));
    assert!(tracked_nodes.contains(&2));
    assert!(tracked_nodes.contains(&3));
    assert!(manager.unregister_rule_nodes(100).is_none());
}

#[test]
fn manager_memory_savings_and_facts() {
    let mut manager = IncrementalConstructionManager::new();
    manager.register_node(1, NodeActivationState::Inactive);
    manager.register_node(2, NodeActivationState::Active);
    manager.register_node(3, NodeActivationState::Dormant);
    manager.register_node(4, NodeActivationState::Pending);
    assert_eq!(manager.estimate_memory_savings(), 2048);
    assert_eq!(manager.get_comprehensive_stats().memory_saved_bytes, 2048);
    assert!(manager.activate_node(4, Some(9)));
    assert!(manager.activate_node(1, Some(9)));
    let nodes = manager.get_nodes_for_fact(9).unwrap();
    assert_eq!(nodes.len(), 2);
    assert!(manager.get_nodes_for_fact(8).is_none());
    assert_eq!(manager.stats.lazy_activations, 2);
    assert!(!manager.deactivate_node(3));
}

#[test]
fn manager_optimize_paths() {
    let mut manager = IncrementalConstructionManager::new();
    for _ in 0..2 {
        manager.record_join_attempt(1, 2, true, 1);
    }
    for _ in 0..9 {
        manager.record_join_attempt(1, 2, false, 0);
    }
    manager.record_join_attempt(3, 4, true, 2);
    assert_eq!(manager.optimize_network_paths(), 1);
    assert_eq!(manager.stats.path_optimizations, 1);
    assert_eq!(percent(manager.get_join_path_efficiency(9, 9)), 0.0);
    manager.cleanup_stale_data(std::time::Duration::from_secs(3600));
    assert!(manager.get_join_path_stats(1, 2).is_some());
    manager.cleanup_stale_data(std::time::Duration::from_secs(0));
    assert!(manager.get_join_path_stats(1, 2).is_none());
}

#[test]
fn test_memory_usage_calculation() {
    let mut tracker = FactChangeTracker::new();

    let facts = vec![create_test_fact(1, 100), create_test_fact(2, 200)];

    let _plan = tracker.detect_changes(&facts);
    let memory_usage = tracker.memory_usage();

    assert!(memory_usage > 0);
    println!("Tracker memory usage: {} bytes", memory_usage);
}

#[test]
fn tracker_cleanups_forget_entries() {
    let mut tracker = FactChangeTracker::new();
    let facts: Vec<Fact> = (1..=150).map(|i| create_test_fact(i, i as i64)).collect();
    tracker.detect_changes(&facts);
    tracker.emergency_cleanup();
    let known = (1..=150u64).filter(|i| tracker.get_fact_state(*i).is_some()).count();
    assert_eq!(known, 100);
    assert_eq!(tracker.stats.total_facts_processed, 0);
    tracker.cleanup_old_entries(std::time::Duration::from_secs(10));
    let known = (1..=150u64).filter(|i| tracker.get_fact_state(*i).is_some()).count();
    assert_eq!(known, 40);
    tracker.cleanup_old_entries(std::time::Duration::from_secs(600));
    let known = (1..=150u64).filter(|i| tracker.get_fact_state(*i).is_some()).count();
    assert_eq!(known, 28);
}

#[test]
fn processing_modes() {
    assert_eq!(
        ProcessingMode::default_incremental(),
        ProcessingMode::Incremental { skip_unchanged: true, min_change_threshold: 5 }
    );
    assert_eq!(
        ProcessingMode::default_adaptive(),
        ProcessingMode::Adaptive { full_processing_threshold: 75, skip_unchanged: true }
    );
    assert_eq!(ProcessingMode::default(), ProcessingMode::default_incremental());
}

#[test]
fn topology_path_is_shortest() {
    let mut topology = NetworkTopology::new();
    topology.add_edge(1, 2);
    topology.add_edge(2, 3);
    topology.add_edge(3, 4);
    topology.add_edge(4, 5);
    topology.add_edge(1, 5);
    assert_eq!(topology.find_path(1, 5), Some(vec![1, 5]));
    assert_eq!(topology.find_path(2, 5), Some(vec![2, 3, 4, 5]));
}

#[test]
fn cleanup_by_seconds_forgets_the_share_for_the_limit() {
    let mut tracker = FactChangeTracker::new();
    let facts: Vec<Fact> = (1..=10).map(|i| create_test_fact(i, i as i64)).collect();
    tracker.detect_changes(&facts);
    tracker.cleanup_entries_older_than_secs(299);
    let known = (1..=10u64).filter(|i| tracker.get_fact_state(*i).is_some()).count();
    assert_eq!(known, 4);
    tracker.cleanup_entries_older_than_secs(300);
    let known = (1..=10u64).filter(|i| tracker.get_fact_state(*i).is_some()).count();
    assert_eq!(known, 3);
    assert_eq!(tracker.stats.total_facts_processed, 10);
}

#[test]
fn detection_sorts_every_fact_once() {
    let mut tracker = FactChangeTracker::new();
    tracker.detect_changes(&[create_test_fact(1, 10), create_test_fact(2, 20)]);
    let plan = tracker.detect_changes(&[create_test_fact(1, 10), create_test_fact(2, 21), create_test_fact(3, 30)]);
    let ids = |v: &Vec<Fact>| v.iter().map(|f| f.id).collect::<Vec<u64>>();
    assert_eq!(ids(&plan.unchanged_facts), vec![1]);
    assert_eq!(ids(&plan.modified_facts), vec![2]);
    assert_eq!(ids(&plan.new_facts), vec![3]);
    assert_eq!(tracker.get_fact_state(1), Some(&FactState::Unchanged));
    assert_eq!(tracker.get_fact_state(2), Some(&FactState::Modified));
    assert_eq!(tracker.get_fact_state(3), Some(&FactState::New));
}
