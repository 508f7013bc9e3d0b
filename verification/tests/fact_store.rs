use bingo_core::fact_store::ArenaFactStore;
use bingo_core::types::{Fact, FactData, FactValue};

fn now_millis() -> i64 {
    chrono::Utc::now().timestamp_millis()
}

const HOUR_MS: i64 = 3_600_000;
const MINUTE_MS: i64 = 60_000;

fn create_test_fact(id: u64) -> Fact {
    let mut fields = FactData::new();
    fields.insert("test_field".to_string(), FactValue::String("test_value".to_string()));
    Fact { id, external_id: None, timestamp: now_millis(), data: fields }
}

fn create_test_fact_with_external_id(id: u64, external_id: &str) -> Fact {
    let mut fact = create_test_fact(id);
    fact.external_id = Some(external_id.to_string());
    fact
}

fn create_test_fact_with_fields(id: u64, fields: FactData) -> Fact {
    Fact { id, external_id: None, timestamp: now_millis(), data: fields }
}

#[test]
fn test_arena_fact_store_constructors() {
    let store = ArenaFactStore::new();
    assert_eq!(store.len(), 0);
    assert!(store.is_empty());

    let store_with_capacity = ArenaFactStore::with_capacity(100);
    assert_eq!(store_with_capacity.len(), 0);
    assert!(store_with_capacity.is_empty());

    let large_store = ArenaFactStore::with_large_capacity(10000);
    assert_eq!(large_store.len(), 0);
    assert!(large_store.is_empty());
}

#[test]
fn test_thread_safe_constructors() {
    let shared_store = ArenaFactStore::new_shared();
    {
        let store = shared_store.read().unwrap();
        assert_eq!(store.len(), 0);
        assert!(store.is_empty());
    }

    let shared_store_capacity = ArenaFactStore::with_capacity_shared(100);
    {
        let store = shared_store_capacity.read().unwrap();
        assert_eq!(store.len(), 0);
        assert!(store.is_empty());
    }

    let shared_large_store = ArenaFactStore::with_large_capacity_shared(10000);
    {
        let store = shared_large_store.read().unwrap();
        assert_eq!(store.len(), 0);
        assert!(store.is_empty());
    }
}

#[test]
fn test_basic_insert_and_get() {
    let mut store = ArenaFactStore::new();

    let fact = create_test_fact(42);
    let fact_id = store.insert(fact.clone());

    assert_eq!(fact_id, 42);
    assert_eq!(store.len(), 1);
    assert!(!store.is_empty());

    let retrieved_fact = store.get_fact(fact_id);
    assert!(retrieved_fact.is_some());
    assert_eq!(retrieved_fact.unwrap().id, 42);
}

#[test]
fn test_external_id_mapping() {
    let mut store = ArenaFactStore::new();

    let fact = create_test_fact_with_external_id(1, "external_123");
    store.insert(fact.clone());

    let retrieved_fact = store.get_by_external_id("external_123");
    assert!(retrieved_fact.is_some());
    let fact = retrieved_fact.unwrap();
    assert_eq!(fact.id, 1);
    assert_eq!(fact.external_id, Some("external_123".to_string()));

    let non_existent = store.get_by_external_id("non_existent");
    assert!(non_existent.is_none());
}

#[test]
fn test_field_indexing_and_search() {
    let mut store = ArenaFactStore::new();

    let mut fact1 = create_test_fact(1);
    fact1.data.insert("entity_id".to_string(), FactValue::String("entity_1".to_string()));
    fact1.data.insert("status".to_string(), FactValue::String("active".to_string()));

    let mut fact2 = create_test_fact(2);
    fact2.data.insert("entity_id".to_string(), FactValue::String("entity_2".to_string()));
    fact2.data.insert("status".to_string(), FactValue::String("active".to_string()));

    let mut fact3 = create_test_fact(3);
    fact3.data.insert("entity_id".to_string(), FactValue::String("entity_1".to_string()));
    fact3.data.insert("status".to_string(), FactValue::String("inactive".to_string()));

    store.insert(fact1);
    store.insert(fact2);
    store.insert(fact3);

    let active_facts = store.find_by_field("status", &FactValue::String("active".to_string()));
    assert_eq!(active_facts.len(), 2);

    let entity_1_facts = store.find_by_field("entity_id", &FactValue::String("entity_1".to_string()));
    assert_eq!(entity_1_facts.len(), 2);

    let mut fact4 = create_test_fact(4);
    fact4.data.insert("custom_field".to_string(), FactValue::String("custom_value".to_string()));
    store.insert(fact4);

    let custom_facts = store.find_by_field("custom_field", &FactValue::String("custom_value".to_string()));
    assert_eq!(custom_facts.len(), 1);
}

#[test]
fn test_find_by_criteria() {
    let mut store = ArenaFactStore::new();

    let mut fact1 = create_test_fact(1);
    fact1.data.insert("type".to_string(), FactValue::String("user".to_string()));
    fact1.data.insert("status".to_string(), FactValue::String("active".to_string()));
    fact1.data.insert("age".to_string(), FactValue::Integer(25));

    let mut fact2 = create_test_fact(2);
    fact2.data.insert("type".to_string(), FactValue::String("user".to_string()));
    fact2.data.insert("status".to_string(), FactValue::String("inactive".to_string()));
    fact2.data.insert("age".to_string(), FactValue::Integer(30));

    let mut fact3 = create_test_fact(3);
    fact3.data.insert("type".to_string(), FactValue::String("admin".to_string()));
    fact3.data.insert("status".to_string(), FactValue::String("active".to_string()));
    fact3.data.insert("age".to_string(), FactValue::Integer(25));

    store.insert(fact1);
    store.insert(fact2);
    store.insert(fact3);

    let criteria = vec![("type".to_string(), FactValue::String("user".to_string()))];
    let results = store.find_by_criteria(&criteria);
    assert_eq!(results.len(), 2);

    let criteria = vec![
        ("type".to_string(), FactValue::String("user".to_string())),
        ("status".to_string(), FactValue::String("active".to_string())),
    ];
    let results = store.find_by_criteria(&criteria);
    assert_eq!(results.len(), 1);

    let criteria = vec![
        ("type".to_string(), FactValue::String("user".to_string())),
        ("age".to_string(), FactValue::Integer(35)),
    ];
    let results = store.find_by_criteria(&criteria);
    assert_eq!(results.len(), 0);
}

#[test]
fn test_time_range_queries() {
    let mut store = ArenaFactStore::new();

    let base_time = now_millis();

    let mut fact1 = create_test_fact(1);
    fact1.timestamp = base_time - 2 * HOUR_MS;

    let mut fact2 = create_test_fact(2);
    fact2.timestamp = base_time;

    let mut fact3 = create_test_fact(3);
    fact3.timestamp = base_time + 2 * HOUR_MS;

    store.insert(fact1);
    store.insert(fact2);
    store.insert(fact3);

    let all_facts = store.facts_in_time_range(base_time - 3 * HOUR_MS, base_time + 3 * HOUR_MS);
    assert_eq!(all_facts.len(), 3);

    let middle_facts = store.facts_in_time_range(base_time - 30 * MINUTE_MS, base_time + 30 * MINUTE_MS);
    assert_eq!(middle_facts.len(), 1);

    let no_facts = store.facts_in_time_range(base_time + 5 * HOUR_MS, base_time + 6 * HOUR_MS);
    assert_eq!(no_facts.len(), 0);
}

#[test]
fn test_fact_updates() {
    let mut store = ArenaFactStore::new();

    let fact = create_test_fact_with_external_id(1, "update_test");
    store.insert(fact);

    let mut updates = FactData::new();
    updates.insert("new_field".to_string(), FactValue::String("new_value".to_string()));
    updates.insert("test_field".to_string(), FactValue::String("updated_value".to_string()));

    let updated = store.update_fact(1, updates);
    assert!(updated);

    let retrieved_fact = store.get_fact(1);
    assert!(retrieved_fact.is_some());
    let fact = retrieved_fact.unwrap();
    assert_eq!(fact.data.get("new_field"), Some(&FactValue::String("new_value".to_string())));
    assert_eq!(fact.data.get("test_field"), Some(&FactValue::String("updated_value".to_string())));

    let mut non_existent_updates = FactData::new();
    non_existent_updates.insert("field".to_string(), FactValue::String("value".to_string()));
    let not_updated = store.update_fact(999, non_existent_updates);
    assert!(!not_updated);
}

#[test]
fn test_fact_deletion() {
    let mut store = ArenaFactStore::new();

    let fact = create_test_fact_with_external_id(1, "delete_test");
    store.insert(fact);

    assert_eq!(store.len(), 1);

    let deleted = store.delete_fact(1);
    assert!(deleted);
    assert_eq!(store.len(), 0);

    let retrieved_fact = store.get_fact(1);
    assert!(retrieved_fact.is_none());

    let by_external_id = store.get_by_external_id("delete_test");
    assert!(by_external_id.is_none());

    let not_deleted = store.delete_fact(999);
    assert!(!not_deleted);
}

#[test]
fn test_clear_functionality() {
    let mut store = ArenaFactStore::new();

    for i in 1..=5 {
        let fact = create_test_fact_with_external_id(i, &format!("external_{i}"));
        store.insert(fact);
    }

    assert_eq!(store.len(), 5);

    store.clear();

    assert_eq!(store.len(), 0);
    assert!(store.is_empty());

    for i in 1..=5 {
        assert!(store.get_fact(i).is_none());
        assert!(store.get_by_external_id(&format!("external_{i}")).is_none());
    }
}

#[test]
fn test_extend_from_vec() {
    let mut store = ArenaFactStore::new();

    let facts = vec![create_test_fact(1), create_test_fact(2), create_test_fact(3)];

    store.extend_from_vec(facts);

    assert_eq!(store.len(), 3);
    assert!(store.get_fact(1).is_some());
    assert!(store.get_fact(2).is_some());
    assert!(store.get_fact(3).is_some());
}

#[test]
fn test_iteration() {
    let mut store = ArenaFactStore::new();

    let facts = vec![create_test_fact(1), create_test_fact(2), create_test_fact(3)];

    for fact in facts {
        store.insert(fact);
    }

    let collected_facts = store.iter();
    assert_eq!(collected_facts.len(), 3);

    let fact_ids: Vec<_> = collected_facts.iter().map(|f| f.id).collect();
    assert!(fact_ids.contains(&1));
    assert!(fact_ids.contains(&2));
    assert!(fact_ids.contains(&3));
}

#[test]
fn test_different_fact_value_types() {
    let mut store = ArenaFactStore::new();

    let mut fields = FactData::new();
    fields.insert("string_field".to_string(), FactValue::String("test".to_string()));
    fields.insert("int_field".to_string(), FactValue::Integer(42));
    fields.insert("bool_field".to_string(), FactValue::Boolean(true));
    fields.insert("null_field".to_string(), FactValue::Null);
    fields.insert("date_field".to_string(), FactValue::Date(now_millis()));

    let fact = create_test_fact_with_fields(1, fields);
    store.insert(fact);

    let string_results = store.find_by_field("string_field", &FactValue::String("test".to_string()));
    assert_eq!(string_results.len(), 1);

    let int_results = store.find_by_field("int_field", &FactValue::Integer(42));
    assert_eq!(int_results.len(), 1);

    let bool_results = store.find_by_field("bool_field", &FactValue::Boolean(true));
    assert_eq!(bool_results.len(), 1);

    let null_results = store.find_by_field("null_field", &FactValue::Null);
    assert_eq!(null_results.len(), 1);
}

#[test]
fn test_id_generation_and_collision_handling() {
    let mut store = ArenaFactStore::new();

    let fact_auto = create_test_fact(0);
    let auto_id = store.insert(fact_auto);
    assert_eq!(auto_id, 0);

    let fact_large = create_test_fact(2_000_000);
    let large_id = store.insert(fact_large);
    assert_eq!(large_id, 1);

    let fact_specific = create_test_fact(42);
    let specific_id = store.insert(fact_specific);
    assert_eq!(specific_id, 42);

    let fact_next_auto = create_test_fact(0);
    let next_auto_id = store.insert(fact_next_auto);
    assert_eq!(next_auto_id, 43);
}

#[test]
fn test_cache_functionality() {
    let store = ArenaFactStore::new();

    let stats = store.cache_stats();
    assert!(stats.is_none());

    store.clear_cache();
}

#[test]
fn test_get_field_by_id() {
    let mut store = ArenaFactStore::new();

    let mut fact1 = create_test_fact(1);
    fact1.external_id = Some("fact1_ext_id".to_string());
    fact1.data.insert("name".to_string(), FactValue::String("TestName".to_string()));
    fact1.data.insert("age".to_string(), FactValue::Integer(30));

    store.insert(fact1.clone());

    let name_field = store.get_field_by_id("fact1_ext_id", "name");
    assert!(name_field.is_some());
    assert_eq!(name_field.unwrap(), FactValue::String("TestName".to_string()));

    let age_field = store.get_field_by_id("fact1_ext_id", "age");
    assert!(age_field.is_some());
    assert_eq!(age_field.unwrap(), FactValue::Integer(30));

    let non_existent_field = store.get_field_by_id("fact1_ext_id", "non_existent");
    assert!(non_existent_field.is_none());

    let non_existent_fact = store.get_field_by_id("non_existent_ext_id", "name");
    assert!(non_existent_fact.is_none());
}

#[test]
fn test_large_dataset_performance() {
    let mut store = ArenaFactStore::with_large_capacity(1000);

    for i in 1..=1000u64 {
        let mut fact = create_test_fact(i);
        fact.data.insert("entity_id".to_string(), FactValue::String(format!("entity_{}", i % 100)));
        fact.data.insert("batch".to_string(), FactValue::Integer((i / 100) as i64));
        store.insert(fact);
    }

    assert_eq!(store.len(), 1000);

    let entity_facts = store.find_by_field("entity_id", &FactValue::String("entity_50".to_string()));
    assert_eq!(entity_facts.len(), 10);

    let all_facts = store.iter();
    assert_eq!(all_facts.len(), 1000);

    let time_facts = store.facts_in_time_range(now_millis() - HOUR_MS, now_millis() + HOUR_MS);
    assert_eq!(time_facts.len(), 1000);
}

#[test]
fn test_edge_cases() {
    let mut store = ArenaFactStore::new();

    let empty_fact = Fact { id: 0, external_id: None, timestamp: now_millis(), data: FactData::new() };
    let fact_id = store.insert(empty_fact);
    assert!(store.get_fact(fact_id).is_some());

    let mut fact_empty_external = create_test_fact(2);
    fact_empty_external.external_id = Some("".to_string());
    store.insert(fact_empty_external);

    let retrieved = store.get_by_external_id("");
    assert!(retrieved.is_some());

    let no_results = store.find_by_field("non_existent_field", &FactValue::String("value".to_string()));
    assert_eq!(no_results.len(), 0);

    let empty_criteria_results = store.find_by_criteria(&[]);
    assert_eq!(empty_criteria_results.len(), store.len());
}

#[test]
fn test_bulk_insert_optimization() {
    let mut store = ArenaFactStore::new();

    let mut facts = Vec::new();
    for i in 1..=100u64 {
        let mut fact = create_test_fact(i);
        fact.data.insert("entity_id".to_string(), FactValue::String(format!("entity_{}", i % 10)));
        fact.data.insert("batch".to_string(), FactValue::Integer((i / 10) as i64));
        facts.push(fact);
    }

    let fact_ids = store.bulk_insert(facts);
    assert_eq!(fact_ids.len(), 100);
    assert_eq!(store.len(), 100);

    for i in 1..=100 {
        assert!(store.get_fact(i).is_some());
    }

    let entity_0_facts = store.find_by_field("entity_id", &FactValue::String("entity_0".to_string()));
    assert_eq!(entity_0_facts.len(), 10);
}

#[test]
fn test_optimized_find_by_criteria() {
    let mut store = ArenaFactStore::new();

    for i in 1..=20u64 {
        let mut fact = create_test_fact(i);
        fact.data.insert("entity_id".to_string(), FactValue::String(format!("entity_{}", i % 5)));
        fact.data.insert(
            "status".to_string(),
            FactValue::String(if i % 2 == 0 { "active" } else { "inactive" }.to_string()),
        );
        fact.data.insert("category".to_string(), FactValue::String(format!("cat_{}", i % 3)));
        store.insert(fact);
    }

    let criteria = vec![
        ("entity_id".to_string(), FactValue::String("entity_1".to_string())),
        ("status".to_string(), FactValue::String("active".to_string())),
    ];
    let results = store.find_by_criteria(&criteria);
    assert_eq!(results.len(), 2);

    let criteria_non_indexed = vec![("non_indexed_field".to_string(), FactValue::String("value".to_string()))];
    let results_empty = store.find_by_criteria(&criteria_non_indexed);
    assert_eq!(results_empty.len(), 0);

    let all_results = store.find_by_criteria(&[]);
    assert_eq!(all_results.len(), 20);
}

#[test]
fn test_index_statistics() {
    let mut store = ArenaFactStore::new();

    for i in 1..=10u64 {
        let mut fact = create_test_fact(i);
        fact.data.insert("entity_id".to_string(), FactValue::String(format!("entity_{}", i % 3)));
        fact.data.insert(
            "status".to_string(),
            FactValue::String(if i % 2 == 0 { "active" } else { "inactive" }.to_string()),
        );
        store.insert(fact);
    }

    let stats = store.index_stats();

    assert_eq!(stats.total_indexed_fields, 2);
    assert_eq!(stats.total_unique_values, 5);
    assert_eq!(stats.total_indexed_facts, 20);

    assert!(stats.field_stats.contains_key("entity_id"));
    assert!(stats.field_stats.contains_key("status"));

    let entity_stats = stats.field_stats.get("entity_id").unwrap();
    assert_eq!(entity_stats.unique_values, 3);
    assert_eq!(entity_stats.indexed_facts, 10);

    let status_stats = stats.field_stats.get("status").unwrap();
    assert_eq!(status_stats.unique_values, 2);
    assert_eq!(status_stats.indexed_facts, 10);
}

#[test]
fn test_index_compaction() {
    let mut store = ArenaFactStore::new();

    for i in 1..=10u64 {
        let mut fact = create_test_fact(i);
        fact.data.insert("entity_id".to_string(), FactValue::String(format!("entity_{i}")));
        store.insert(fact);
    }

    store.delete_fact(1);
    store.delete_fact(3);
    store.delete_fact(5);

    let stats_before = store.index_stats();

    store.compact_indexes();

    let stats_after = store.index_stats();
    assert!(stats_after.total_indexed_facts <= stats_before.total_indexed_facts);

    let remaining_facts = store.find_by_field("entity_id", &FactValue::String("entity_2".to_string()));
    assert_eq!(remaining_facts.len(), 1);
}

// Own tests: the laws on concrete values and the edge cases.

#[test]
fn insert_then_find_by_indexed_field_gives_the_fact() {
    let mut store = ArenaFactStore::new();
    let mut fact = create_test_fact(7);
    fact.data.insert("user_id".to_string(), FactValue::Integer(99));
    let id = store.insert(fact);
    let found = store.find_by_field("user_id", &FactValue::Integer(99));
    assert_eq!(found.len(), 1);
    assert_eq!(found[0].id, id);
}

#[test]
fn delete_then_insert_restores_count_and_frees_external_id() {
    let mut store = ArenaFactStore::new();
    let id = store.insert(create_test_fact_with_external_id(3, "x"));
    assert_eq!(store.len(), 1);
    assert!(store.delete_fact(id));
    assert_eq!(store.len(), 0);
    assert!(store.get_by_external_id("x").is_none());
    assert!(!store.delete_fact(id));
}

#[test]
fn requested_id_above_limit_is_replaced() {
    let mut store = ArenaFactStore::new();
    assert_eq!(store.insert(create_test_fact(1_000_001)), 0);
    assert_eq!(store.insert(create_test_fact(1_000_000)), 1_000_000);
    assert_eq!(store.insert(create_test_fact(0)), 1_000_001);
}

#[test]
fn insert_over_existing_id_replaces_the_fact() {
    let mut store = ArenaFactStore::new();
    store.insert(create_test_fact(5));
    let mut other = create_test_fact(5);
    other.data.insert("status".to_string(), FactValue::String("new".to_string()));
    store.insert(other);
    let got = store.get_fact(5).unwrap();
    assert_eq!(got.data.get("status"), Some(&FactValue::String("new".to_string())));
    assert_eq!(store.iter().len(), 1);
}

#[test]
fn time_range_is_inclusive() {
    let mut store = ArenaFactStore::new();
    let mut fact = create_test_fact(1);
    fact.timestamp = 1000;
    store.insert(fact);
    assert_eq!(store.facts_in_time_range(1000, 1000).len(), 1);
    assert_eq!(store.facts_in_time_range(1001, 2000).len(), 0);
}

#[test]
fn reinserting_an_id_counts_one_fact() {
    let mut store = ArenaFactStore::new();
    assert_eq!(store.insert(create_test_fact(5)), 5);
    assert_eq!(store.insert(create_test_fact(5)), 5);
    assert_eq!(store.len(), 1);
    assert_eq!(store.iter().len(), 1);
    assert!(store.delete_fact(5));
    assert_eq!(store.len(), 0);
    assert!(store.is_empty());
}

#[test]
fn update_replaces_index_entries() {
    let mut store = ArenaFactStore::new();
    let mut data = FactData::new();
    data.insert("status".to_string(), FactValue::String("active".to_string()));
    assert_eq!(store.insert(create_test_fact_with_fields(1, data)), 1);
    let mut updates = FactData::new();
    updates.insert("status".to_string(), FactValue::String("inactive".to_string()));
    assert!(store.update_fact(1, updates));
    assert!(store.find_by_field("status", &FactValue::String("active".to_string())).is_empty());
    assert_eq!(store.find_by_field("status", &FactValue::String("inactive".to_string())).len(), 1);
    let crit = vec![("status".to_string(), FactValue::String("active".to_string()))];
    assert!(store.find_by_criteria(&crit).is_empty());
}

#[test]
fn field_lookup_compares_values_not_text() {
    let mut store = ArenaFactStore::new();
    let mut data = FactData::new();
    data.insert("user_id".to_string(), FactValue::Integer(1));
    store.insert(create_test_fact_with_fields(3, data));
    assert!(store.find_by_field("user_id", &FactValue::String("1".to_string())).is_empty());
    assert_eq!(store.find_by_field("user_id", &FactValue::Integer(1)).len(), 1);
}

#[test]
fn reinserted_fact_found_once_and_iteration_ascends() {
    let mut store = ArenaFactStore::new();
    for _ in 0..2 {
        let mut data = FactData::new();
        data.insert("category".to_string(), FactValue::String("a".to_string()));
        store.insert(create_test_fact_with_fields(9, data));
    }
    store.insert(create_test_fact(2));
    assert_eq!(store.find_by_field("category", &FactValue::String("a".to_string())).len(), 1);
    let ids: Vec<u64> = store.iter().iter().map(|f| f.id).collect();
    assert_eq!(ids, vec![2, 9]);
}

#[test]
fn date_values_render_in_rfc3339() {
    assert_eq!(FactValue::Date(0).as_string(), "1970-01-01T00:00:00+00:00");
    assert_eq!(FactValue::Date(1_500).as_string(), "1970-01-01T00:00:01.500+00:00");
    assert_eq!(FactValue::Date(i64::MAX).as_string(), "");
}

#[test]
fn compaction_keeps_indexed_count_and_field_searches() {
    let mut store = ArenaFactStore::new();
    for i in 1..=6u64 {
        let mut fact = create_test_fact(i);
        fact.data.insert("entity_id".to_string(), FactValue::String(format!("entity_{}", i % 3)));
        store.insert(fact);
    }
    store.delete_fact(2);
    store.delete_fact(5);
    let before = store.index_stats();
    let mut found_before: Vec<u64> =
        store.find_by_field("entity_id", &FactValue::String("entity_1".to_string())).iter().map(|f| f.id).collect();
    found_before.sort();
    store.compact_indexes();
    let after = store.index_stats();
    assert_eq!(after.total_indexed_facts, before.total_indexed_facts);
    let mut found_after: Vec<u64> =
        store.find_by_field("entity_id", &FactValue::String("entity_1".to_string())).iter().map(|f| f.id).collect();
    found_after.sort();
    assert_eq!(found_after, found_before);
    assert_eq!(found_after, vec![1, 4]);
}
