use bingo_core::node_sharing::{AlphaNodeSignature, BetaNodeSignature, NodeSharingRegistry};
use bingo_core::types::{Condition, FactValue, JoinCondition, Operator, Ratio};

fn percent(r: Ratio) -> f64 {
    if r.whole == 0 {
        0.0
    } else {
        (r.part as f64 / r.whole as f64) * 100.0
    }
}

#[test]
fn test_alpha_node_signature_creation() {
    let condition = Condition::Simple {
        field: "age".to_string(),
        operator: Operator::GreaterThan,
        value: FactValue::Integer(18),
    };

    let signature = AlphaNodeSignature::new(condition.clone());
    assert!(signature.is_shareable());
    assert_eq!(signature.condition(), &condition);
}

#[test]
fn test_beta_node_signature_ordering() {
    let conditions1 = vec![
        JoinCondition { left_field: "b".to_string(), right_field: "y".to_string(), operator: Operator::Equal },
        JoinCondition { left_field: "a".to_string(), right_field: "x".to_string(), operator: Operator::Equal },
    ];

    let conditions2 = vec![
        JoinCondition { left_field: "a".to_string(), right_field: "x".to_string(), operator: Operator::Equal },
        JoinCondition { left_field: "b".to_string(), right_field: "y".to_string(), operator: Operator::Equal },
    ];

    let sig1 = BetaNodeSignature::new(conditions1);
    let sig2 = BetaNodeSignature::new(conditions2);

    assert_eq!(sig1, sig2);
}

#[test]
fn test_node_sharing_registry_alpha_nodes() {
    let mut registry = NodeSharingRegistry::new();

    let condition = Condition::Simple {
        field: "status".to_string(),
        operator: Operator::Equal,
        value: FactValue::String("active".to_string()),
    };

    assert!(registry.find_shared_alpha_node(&condition).is_none());

    registry.register_alpha_node(1, &condition);

    assert_eq!(registry.find_shared_alpha_node(&condition), Some(1));

    assert_eq!(registry.find_shared_alpha_node(&condition), Some(1));

    let stats = registry.get_stats();
    assert_eq!(stats.alpha_nodes_total, 1);
    assert_eq!(stats.alpha_shares_found, 2);
    assert_eq!(percent(stats.alpha_sharing_rate), 200.0);
}

#[test]
fn test_node_sharing_registry_beta_nodes() {
    let mut registry = NodeSharingRegistry::new();

    let join_conditions = vec![JoinCondition {
        left_field: "user_id".to_string(),
        right_field: "user_id".to_string(),
        operator: Operator::Equal,
    }];

    assert!(registry.find_shared_beta_node(&join_conditions).is_none());

    registry.register_beta_node(2, &join_conditions);

    assert_eq!(registry.find_shared_beta_node(&join_conditions), Some(2));

    let stats = registry.get_stats();
    assert_eq!(stats.beta_nodes_total, 1);
    assert_eq!(stats.beta_shares_found, 1);
}

#[test]
fn test_reference_counting() {
    let mut registry = NodeSharingRegistry::new();

    let condition = Condition::Simple {
        field: "type".to_string(),
        operator: Operator::Equal,
        value: FactValue::String("test".to_string()),
    };

    registry.register_alpha_node(1, &condition);
    registry.find_shared_alpha_node(&condition);
    registry.find_shared_alpha_node(&condition);

    assert!(!registry.unregister_alpha_node(1));
    assert!(!registry.unregister_alpha_node(1));
    assert!(registry.unregister_alpha_node(1));
}

#[test]
fn test_memory_savings_calculation() {
    let mut registry = NodeSharingRegistry::new();

    registry.alpha_shares_found = 5;
    registry.beta_shares_found = 3;

    let savings = registry.calculate_memory_savings();
    assert_eq!(savings.alpha_nodes_saved, 5);
    assert_eq!(savings.beta_nodes_saved, 3);
    assert_eq!(savings.total_nodes_saved(), 8);
    assert!(savings.total_memory_saved_bytes > 0);

    let readable = savings.to_human_readable();
    assert!(readable.contains("bytes") || readable.contains("KB") || readable.contains("MB"));
}

#[test]
fn test_sharing_statistics() {
    let mut registry = NodeSharingRegistry::new();

    registry.alpha_nodes_created = 10;
    registry.beta_nodes_created = 5;
    registry.alpha_shares_found = 3;
    registry.beta_shares_found = 2;

    let stats = registry.get_stats();
    assert_eq!(percent(stats.alpha_sharing_rate), 30.0);
    assert_eq!(percent(stats.beta_sharing_rate), 40.0);
    assert_eq!(percent(stats.overall_sharing_rate()), (5.0 / 15.0) * 100.0);
    assert_eq!(stats.nodes_without_sharing(), 20);
}

#[test]
fn test_clear_registry() {
    let mut registry = NodeSharingRegistry::new();

    let condition = Condition::Simple {
        field: "test".to_string(),
        operator: Operator::Equal,
        value: FactValue::Boolean(true),
    };

    registry.register_alpha_node(1, &condition);
    registry.find_shared_alpha_node(&condition);

    assert!(registry.get_stats().alpha_nodes_total > 0);

    registry.clear();

    let stats = registry.get_stats();
    assert_eq!(stats.alpha_nodes_total, 0);
    assert_eq!(stats.alpha_shares_found, 0);
    assert!(registry.find_shared_alpha_node(&condition).is_none());
}

// Own tests.

#[test]
fn complex_conditions_are_not_shared() {
    let mut registry = NodeSharingRegistry::new();
    let inner = Condition::Simple { field: "a".to_string(), operator: Operator::Equal, value: FactValue::Null };
    let complex = Condition::Complex { operator: bingo_core::types::LogicalOperator::And, conditions: vec![inner] };
    registry.register_alpha_node(4, &complex);
    assert!(registry.find_shared_alpha_node(&complex).is_none());
    assert_eq!(registry.get_stats().alpha_nodes_total, 1);
    assert_eq!(registry.get_stats().alpha_nodes_active, 0);
}

#[test]
fn beta_reference_counting_and_order() {
    let mut registry = NodeSharingRegistry::new();
    let a = JoinCondition { left_field: "a".to_string(), right_field: "x".to_string(), operator: Operator::Equal };
    let b = JoinCondition { left_field: "b".to_string(), right_field: "y".to_string(), operator: Operator::LessThan };
    registry.register_beta_node(9, &[a.clone(), b.clone()]);
    assert_eq!(registry.find_shared_beta_node(&[b.clone(), a.clone()]), Some(9));
    assert!(!registry.unregister_beta_node(9));
    assert!(registry.unregister_beta_node(9));
    assert!(registry.find_shared_beta_node(&[a, b]).is_none());
    assert!(!registry.unregister_beta_node(9));
}

#[test]
fn human_readable_savings_units() {
    let mut registry = NodeSharingRegistry::new();
    registry.alpha_shares_found = 0;
    registry.beta_shares_found = 0;
    let savings = registry.calculate_memory_savings();
    assert_eq!(savings.to_human_readable(), "0 bytes");
}
