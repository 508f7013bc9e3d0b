use bingo_core::parallel_rete::{ParallelReteConfig, WorkQueue};
use bingo_core::types::{Fact, FactId};

#[allow(dead_code)]
enum WorkItem {
    Alpha { facts: Vec<Fact>, fact_ids: Vec<FactId> },
    Beta { tokens: Vec<FactId>, rule_id: u64 },
}

#[test]
fn test_parallel_rete_config_defaults() {
    let config = ParallelReteConfig::default();
    assert!(config.parallel_threshold > 0);
    assert!(config.worker_count > 0);
    assert!(config.fact_chunk_size > 0);
    assert!(config.token_chunk_size > 0);
}

#[test]
fn test_work_queue_basic_operations() {
    let mut queue = WorkQueue::new(10);

    let work_item = WorkItem::Alpha { facts: vec![], fact_ids: vec![] };

    assert!(queue.push(work_item));
    assert_eq!(queue.len(), 1);
    assert!(!queue.is_empty());

    let popped = queue.pop();
    assert!(popped.is_some());
    assert_eq!(queue.len(), 0);
    assert!(queue.is_empty());
}

#[test]
fn test_work_queue_capacity() {
    let mut queue = WorkQueue::new(2);

    let work_item1 = WorkItem::Alpha { facts: vec![], fact_ids: vec![] };
    let work_item2 = WorkItem::Alpha { facts: vec![], fact_ids: vec![] };
    let work_item3 = WorkItem::Alpha { facts: vec![], fact_ids: vec![] };

    assert!(queue.push(work_item1));
    assert!(queue.push(work_item2));
    assert!(!queue.push(work_item3));

    assert_eq!(queue.len(), 2);
}

#[test]
fn test_work_queue_steal() {
    let mut queue = WorkQueue::new(10);

    let work_item = WorkItem::Beta { tokens: vec![], rule_id: 1 };

    assert!(queue.push(work_item));
    assert_eq!(queue.len(), 1);

    let stolen = queue.steal();
    assert!(stolen.is_some());
    assert_eq!(queue.len(), 0);
}

// Own tests.

#[test]
fn queue_order_pop_front_steal_back() {
    let mut queue = WorkQueue::new(3);
    assert!(queue.push(1));
    assert!(queue.push(2));
    assert!(queue.push(3));
    assert!(!queue.push(4));
    assert_eq!(queue.steal(), Some(3));
    assert_eq!(queue.pop(), Some(1));
    assert_eq!(queue.pop(), Some(2));
    assert_eq!(queue.pop(), None);
    assert_eq!(queue.steal(), None);
}

#[test]
fn zero_capacity_queue_takes_nothing() {
    let mut queue = WorkQueue::new(0);
    assert!(!queue.push(1u8));
    assert!(queue.is_empty());
}

#[test]
fn rete_config_for_cpu_counts() {
    let c1 = ParallelReteConfig::for_cpu_count(1);
    assert_eq!(c1.worker_count, 1);
    assert_eq!(c1.parallel_threshold, 50);
    assert!(!c1.enable_parallel_alpha);
    let c4 = ParallelReteConfig::for_cpu_count(4);
    assert!(c4.enable_parallel_alpha);
    assert!(c4.enable_parallel_beta);
    assert!(c4.enable_work_stealing);
}
