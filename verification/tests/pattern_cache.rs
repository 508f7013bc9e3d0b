use bingo_core::pattern_cache::{AlphaNodePlan, PatternCache, PatternSignature};
use bingo_core::types::{Action, ActionType, Condition, FactValue, JoinCondition, Operator, Ratio, Rule};

fn percent(r: Ratio) -> f64 {
    if r.whole == 0 {
        0.0
    } else {
        (r.part as f64 / r.whole as f64) * 100.0
    }
}

fn create_test_rule(id: u64, field: &str, value: i64) -> Rule {
    Rule {
        id,
        name: format!("test_rule_{}", id),
        conditions: vec![Condition::Simple {
            field: field.to_string(),
            operator: Operator::Equal,
            value: FactValue::Integer(value),
        }],
        actions: vec![Action { action_type: ActionType::Log { message: "test".to_string() } }],
    }
}

#[test]
fn test_pattern_signature_consistency() {
    let rule1 = create_test_rule(1, "age", 25);
    let rule2 = create_test_rule(2, "age", 25);
    let rule3 = create_test_rule(3, "score", 100);

    let sig1 = PatternSignature::from_rule_conditions(&rule1.conditions);
    let sig2 = PatternSignature::from_rule_conditions(&rule2.conditions);
    let sig3 = PatternSignature::from_rule_conditions(&rule3.conditions);

    assert_eq!(sig1, sig2);
    assert_ne!(sig1, sig3);
}

#[test]
fn test_pattern_cache_basic_operations() {
    let mut cache = PatternCache::new();
    let rule = create_test_rule(1, "status", 1);

    assert!(cache.get_rule_pattern(&rule).is_none());
    assert_eq!(cache.stats.pattern_cache_misses, 1);

    let plan = cache.create_compilation_plan(&rule);
    cache.cache_rule_pattern(&rule, plan);

    assert!(cache.get_rule_pattern(&rule).is_some());
    assert_eq!(cache.stats.pattern_cache_hits, 1);
    assert_eq!(cache.stats.patterns_cached, 1);
}

#[test]
fn test_alpha_pattern_caching() {
    let mut cache = PatternCache::new();
    let condition = Condition::Simple {
        field: "user_id".to_string(),
        operator: Operator::Equal,
        value: FactValue::Integer(123),
    };

    assert!(cache.get_alpha_pattern(&condition).is_none());
    assert_eq!(cache.stats.alpha_cache_misses, 1);

    let plan = AlphaNodePlan {
        condition: condition.clone(),
        signature: PatternSignature::from_condition(&condition),
        shareable: true,
    };
    cache.cache_alpha_pattern(&condition, plan);

    assert!(cache.get_alpha_pattern(&condition).is_some());
    assert_eq!(cache.stats.alpha_cache_hits, 1);
}

#[test]
fn test_compilation_plan_creation() {
    let cache = PatternCache::new();
    let rule = Rule {
        id: 1,
        name: "multi_condition_rule".to_string(),
        conditions: vec![
            Condition::Simple {
                field: "user_id".to_string(),
                operator: Operator::Equal,
                value: FactValue::Integer(123),
            },
            Condition::Simple {
                field: "user_id".to_string(),
                operator: Operator::GreaterThan,
                value: FactValue::Integer(0),
            },
        ],
        actions: vec![],
    };

    let plan = cache.create_compilation_plan(&rule);
    assert_eq!(plan.alpha_nodes.len(), 2);
    assert_eq!(plan.beta_nodes.len(), 1);
    assert_eq!(plan.estimated_node_count, 4);
}

#[test]
fn test_cache_statistics() {
    let mut cache = PatternCache::new();
    let rule1 = create_test_rule(1, "age", 25);
    let rule2 = create_test_rule(2, "age", 25);

    let _miss1 = cache.get_rule_pattern(&rule1).is_some();
    let _miss2 = cache.get_rule_pattern(&rule2).is_some();

    let plan = cache.create_compilation_plan(&rule1);
    cache.cache_rule_pattern(&rule1, plan);

    let _hit1 = cache.get_rule_pattern(&rule1).is_some();
    let _hit2 = cache.get_rule_pattern(&rule2).is_some();

    assert_eq!(cache.stats.pattern_cache_hits, 2);
    assert_eq!(cache.stats.pattern_cache_misses, 2);
    assert_eq!(percent(cache.stats.pattern_hit_rate()), 50.0);
}

// Own tests.

#[test]
fn join_signature_ignores_order() {
    let a = JoinCondition { left_field: "a".to_string(), right_field: "x".to_string(), operator: Operator::Equal };
    let b = JoinCondition { left_field: "b".to_string(), right_field: "y".to_string(), operator: Operator::Equal };
    let s1 = PatternSignature::from_join_conditions(&[a.clone(), b.clone()]);
    let s2 = PatternSignature::from_join_conditions(&[b, a]);
    assert_eq!(s1, s2);
    assert_eq!(s1.pattern_description(), "Join[a=x,b=y]");
}

#[test]
fn field_signature_ignores_order_and_join_cache_works() {
    let mut cache = PatternCache::new();
    let names1 = vec!["b".to_string(), "a".to_string()];
    let names2 = vec!["a".to_string(), "b".to_string()];
    assert_eq!(PatternSignature::from_field_names(&names1), PatternSignature::from_field_names(&names2));
    assert_eq!(PatternSignature::from_field_names(&names1).pattern_description(), "Fields[a,b]");
    assert!(cache.get_join_pattern(&names1).is_none());
    let jc = JoinCondition { left_field: "a".to_string(), right_field: "b".to_string(), operator: Operator::Equal };
    cache.cache_join_pattern(&names1, vec![jc.clone()]);
    assert_eq!(cache.get_join_pattern(&names2), Some(&vec![jc]));
    assert_eq!(cache.stats.join_cache_hits, 1);
    assert_eq!(cache.stats.join_cache_misses, 1);
}

#[test]
fn rule_signature_description() {
    let rule = create_test_rule(1, "age", 25);
    let sig = PatternSignature::from_rule_conditions(&rule.conditions);
    assert_eq!(sig.pattern_description(), "Pattern[age:Equal]");
}

#[test]
fn clear_and_size() {
    let mut cache = PatternCache::new();
    let rule = create_test_rule(1, "x", 1);
    let plan = cache.create_compilation_plan(&rule);
    cache.cache_rule_pattern(&rule, plan);
    assert_eq!(cache.size(), 1);
    cache.clear();
    assert_eq!(cache.size(), 0);
    assert_eq!(cache.stats.patterns_cached, 0);
}

#[test]
fn single_condition_plan_has_no_beta_node() {
    let cache = PatternCache::new();
    let rule = create_test_rule(1, "x", 1);
    let plan = cache.create_compilation_plan(&rule);
    assert_eq!(plan.alpha_nodes.len(), 1);
    assert_eq!(plan.beta_nodes.len(), 0);
    assert_eq!(plan.estimated_node_count, 2);
}
