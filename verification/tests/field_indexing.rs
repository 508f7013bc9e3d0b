use bingo_core::field_indexing::FieldIndexer;
use bingo_core::types::{Fact, FactData, FactId, FactValue};

fn create_test_fact(id: FactId, field_name: &str, field_value: FactValue) -> Fact {
    let mut fields = FactData::new();
    fields.insert(field_name.to_string(), field_value);
    Fact::new(id, fields)
}

#[test]
fn test_field_indexer_basic_operations() {
    let mut indexer = FieldIndexer::new();

    let fact1 = create_test_fact(1, "status", FactValue::String("active".to_string()));
    let fact2 = create_test_fact(2, "status", FactValue::String("inactive".to_string()));
    let fact3 = create_test_fact(3, "status", FactValue::String("active".to_string()));

    indexer.index_fact(&fact1);
    indexer.index_fact(&fact2);
    indexer.index_fact(&fact3);

    let active_facts = indexer.find_by_field("status", &FactValue::String("active".to_string()));
    assert_eq!(active_facts.len(), 2);
    assert!(active_facts.contains(&1));
    assert!(active_facts.contains(&3));

    let inactive_facts = indexer.find_by_field("status", &FactValue::String("inactive".to_string()));
    assert_eq!(inactive_facts.len(), 1);
    assert!(inactive_facts.contains(&2));

    let non_indexed = indexer.find_by_field("non_indexed", &FactValue::String("test".to_string()));
    assert!(non_indexed.is_empty());
}

#[test]
fn test_field_indexer_multiple_criteria() {
    let mut indexer = FieldIndexer::new();

    let mut fields1 = FactData::new();
    fields1.insert("status".to_string(), FactValue::String("active".to_string()));
    fields1.insert("category".to_string(), FactValue::String("premium".to_string()));
    let fact1 = Fact::new(1, fields1);

    let mut fields2 = FactData::new();
    fields2.insert("status".to_string(), FactValue::String("active".to_string()));
    fields2.insert("category".to_string(), FactValue::String("basic".to_string()));
    let fact2 = Fact::new(2, fields2);

    let mut fields3 = FactData::new();
    fields3.insert("status".to_string(), FactValue::String("inactive".to_string()));
    fields3.insert("category".to_string(), FactValue::String("premium".to_string()));
    let fact3 = Fact::new(3, fields3);

    indexer.index_fact(&fact1);
    indexer.index_fact(&fact2);
    indexer.index_fact(&fact3);

    let criteria = vec![
        ("status".to_string(), FactValue::String("active".to_string())),
        ("category".to_string(), FactValue::String("premium".to_string())),
    ];

    let matching_facts = indexer.find_by_criteria(&criteria);
    assert_eq!(matching_facts.len(), 1);
    assert!(matching_facts.contains(&1));
}

#[test]
fn test_field_indexer_removal() {
    let mut indexer = FieldIndexer::new();

    let fact = create_test_fact(1, "status", FactValue::String("active".to_string()));

    indexer.index_fact(&fact);
    let before_removal = indexer.find_by_field("status", &FactValue::String("active".to_string()));
    assert_eq!(before_removal.len(), 1);

    indexer.remove_fact(&fact);
    let after_removal = indexer.find_by_field("status", &FactValue::String("active".to_string()));
    assert!(after_removal.is_empty());
}

#[test]
fn test_field_indexer_custom_fields() {
    let custom_fields = vec!["custom_field".to_string(), "another_field".to_string()];
    let mut indexer = FieldIndexer::with_fields(custom_fields);

    let fact = create_test_fact(1, "custom_field", FactValue::String("value".to_string()));
    indexer.index_fact(&fact);

    let results = indexer.find_by_field("custom_field", &FactValue::String("value".to_string()));
    assert_eq!(results.len(), 1);

    let fact2 = create_test_fact(2, "status", FactValue::String("active".to_string()));
    indexer.index_fact(&fact2);
    let no_results = indexer.find_by_field("status", &FactValue::String("active".to_string()));
    assert!(no_results.is_empty());
}

#[test]
fn indexer_criteria_empty_gives_nothing() {
    let mut indexer = FieldIndexer::new();
    indexer.index_fact(&create_test_fact(1, "status", FactValue::String("a".to_string())));
    assert!(indexer.find_by_criteria(&[]).is_empty());
}

#[test]
fn indexer_removal_keeps_other_facts() {
    let mut indexer = FieldIndexer::new();
    let a = create_test_fact(1, "status", FactValue::Integer(5));
    let b = create_test_fact(2, "status", FactValue::Integer(5));
    indexer.index_fact(&a);
    indexer.index_fact(&b);
    indexer.remove_fact(&a);
    assert_eq!(indexer.find_by_field("status", &FactValue::Integer(5)), vec![2]);
}

#[test]
fn indexer_set_fields_and_clear() {
    let mut indexer = FieldIndexer::new();
    indexer.index_fact(&create_test_fact(1, "status", FactValue::Boolean(true)));
    indexer.set_indexed_fields(vec!["x".to_string()]);
    assert_eq!(indexer.get_indexed_fields().len(), 1);
    assert!(indexer.find_by_field("status", &FactValue::Boolean(true)).is_empty());
    indexer.index_fact(&create_test_fact(3, "x", FactValue::Null));
    assert_eq!(indexer.find_by_field("x", &FactValue::Null), vec![3]);
    indexer.clear();
    assert!(indexer.find_by_field("x", &FactValue::Null).is_empty());
}

fn ratio_value(r: bingo_core::types::Ratio) -> f64 {
    if r.whole == 0 {
        0.0
    } else {
        r.part as f64 / r.whole as f64
    }
}

#[test]
fn test_field_indexer_stats() {
    let mut indexer = FieldIndexer::new();

    for i in 1..=10 {
        let fact = create_test_fact(i, "status", FactValue::String(format!("status_{}", i % 3)));
        indexer.index_fact(&fact);
    }

    let stats = indexer.stats();
    assert_eq!(stats.indexed_fields, 6);
    assert_eq!(stats.total_indexes, 1);
    assert_eq!(stats.total_entries, 3);
    assert_eq!(stats.total_fact_refs, 10);
    assert!(stats.memory_usage_bytes > 0);

    assert!(ratio_value(stats.avg_entries_per_index()) > 0.0);
    assert!(ratio_value(stats.avg_facts_per_entry()) > 0.0);
}
