use edgevec::metadata::{MetadataError, MetadataStore, MetadataValue};
use edgevec::metadata::validation::MAX_KEYS_PER_VECTOR;

fn float_value(x: f64) -> MetadataValue {
    MetadataValue::Float(x.to_bits())
}

#[test]
fn test_new_store_is_empty() {
    let store = MetadataStore::new();
    assert!(store.is_empty());
    assert_eq!(store.vector_count(), 0);
}

#[test]
fn test_with_capacity() {
    let store = MetadataStore::with_capacity(100);
    assert!(store.is_empty());
    assert_eq!(store.vector_count(), 0);
}

#[test]
fn test_with_capacity_preallocates() {
    // Verify with_capacity works by inserting many vectors without rehashing
    // HashMap with capacity 100 should handle 100 vectors without realloc
    let mut store = MetadataStore::with_capacity(100);

    // Insert 100 different vectors - this would cause rehashing if capacity wasn't set
    for i in 0..100u32 {
        store
            .insert(i, "key", MetadataValue::Integer(i64::from(i)))
            .unwrap();
    }

    assert_eq!(store.vector_count(), 100);

    // Zero capacity should work
    let store_zero = MetadataStore::with_capacity(0);
    assert!(store_zero.is_empty());
}

#[test]
fn test_default_trait() {
    let store: MetadataStore = MetadataStore::default();
    assert!(store.is_empty());
}

#[test]
fn store_test_clone() {
    let mut store = MetadataStore::new();
    store.insert(0, "key", MetadataValue::Integer(42)).unwrap();

    let cloned = store.clone();
    assert_eq!(store.get(0, "key"), cloned.get(0, "key"));
}

#[test]
fn test_debug() {
    let store = MetadataStore::new();
    let debug_str = format!("{store:?}");
    assert!(debug_str.contains("MetadataStore"));
}

#[test]
fn test_partial_eq() {
    let mut store1 = MetadataStore::new();
    store1.insert(0, "key", MetadataValue::Integer(42)).unwrap();

    let mut store2 = MetadataStore::new();
    store2.insert(0, "key", MetadataValue::Integer(42)).unwrap();

    assert_eq!(store1, store2);
}

#[test]
fn test_insert_and_get() {
    let mut store = MetadataStore::new();
    store
        .insert(0, "key", MetadataValue::String("value".to_string()))
        .unwrap();
    assert_eq!(store.get(0, "key").unwrap().as_string(), Some("value"));
}

#[test]
fn test_insert_all_types() {
    let mut store = MetadataStore::new();
    store
        .insert(0, "string", MetadataValue::String("s".to_string()))
        .unwrap();
    store
        .insert(0, "integer", MetadataValue::Integer(42))
        .unwrap();
    store.insert(0, "float", float_value(2.5)).unwrap();
    store
        .insert(0, "boolean", MetadataValue::Boolean(true))
        .unwrap();
    store
        .insert(
            0,
            "array",
            MetadataValue::StringArray(vec!["a".to_string()]),
        )
        .unwrap();
    assert_eq!(store.key_count(0), 5);
}

#[test]
fn test_insert_overwrites_existing() {
    let mut store = MetadataStore::new();
    store.insert(0, "key", MetadataValue::Integer(1)).unwrap();
    store.insert(0, "key", MetadataValue::Integer(2)).unwrap();
    assert_eq!(store.get(0, "key").unwrap().as_integer(), Some(2));
    assert_eq!(store.key_count(0), 1); // Still just one key
}

#[test]
fn test_insert_empty_key_fails() {
    let mut store = MetadataStore::new();
    let result = store.insert(0, "", MetadataValue::Integer(1));
    assert!(matches!(result, Err(MetadataError::EmptyKey)));
}

#[test]
fn test_insert_invalid_key_fails() {
    let mut store = MetadataStore::new();
    let result = store.insert(0, "bad-key", MetadataValue::Integer(1));
    assert!(matches!(
        result,
        Err(MetadataError::InvalidKeyFormat { .. })
    ));
}

#[test]
fn test_insert_nan_float_fails() {
    let mut store = MetadataStore::new();
    let result = store.insert(0, "key", float_value(f64::NAN));
    assert!(matches!(result, Err(MetadataError::InvalidFloat { .. })));
}

#[test]
fn test_too_many_keys_error() {
    let mut store = MetadataStore::new();
    for i in 0..MAX_KEYS_PER_VECTOR {
        store
            .insert(0, &format!("key_{i}"), MetadataValue::Integer(i as i64))
            .unwrap();
    }
    let result = store.insert(0, "one_more", MetadataValue::Integer(0));
    assert!(matches!(result, Err(MetadataError::TooManyKeys { .. })));
}

#[test]
fn test_insert_at_max_keys_overwrites_ok() {
    let mut store = MetadataStore::new();
    for i in 0..MAX_KEYS_PER_VECTOR {
        store
            .insert(0, &format!("key_{i}"), MetadataValue::Integer(i as i64))
            .unwrap();
    }
    // Overwriting an existing key should still work
    store
        .insert(0, "key_0", MetadataValue::Integer(999))
        .unwrap();
    assert_eq!(store.get(0, "key_0").unwrap().as_integer(), Some(999));
}

#[test]
fn test_update_existing() {
    let mut store = MetadataStore::new();
    store.insert(0, "key", MetadataValue::Integer(1)).unwrap();
    store.update(0, "key", MetadataValue::Integer(2)).unwrap();
    assert_eq!(store.get(0, "key").unwrap().as_integer(), Some(2));
}

#[test]
fn test_update_nonexistent_vector_fails() {
    let mut store = MetadataStore::new();
    let result = store.update(0, "key", MetadataValue::Integer(1));
    assert!(matches!(result, Err(MetadataError::VectorNotFound { .. })));
}

#[test]
fn test_update_nonexistent_key_fails() {
    let mut store = MetadataStore::new();
    store
        .insert(0, "other_key", MetadataValue::Integer(1))
        .unwrap();
    let result = store.update(0, "missing_key", MetadataValue::Integer(1));
    assert!(matches!(result, Err(MetadataError::KeyNotFound { .. })));
}

#[test]
fn test_update_with_invalid_value_fails() {
    let mut store = MetadataStore::new();
    store.insert(0, "key", MetadataValue::Integer(1)).unwrap();
    let result = store.update(0, "key", float_value(f64::NAN));
    assert!(matches!(result, Err(MetadataError::InvalidFloat { .. })));
}

#[test]
fn test_get_nonexistent_vector() {
    let store = MetadataStore::new();
    assert!(store.get(999, "key").is_none());
}

#[test]
fn test_get_nonexistent_key() {
    let mut store = MetadataStore::new();
    store.insert(0, "key", MetadataValue::Integer(1)).unwrap();
    assert!(store.get(0, "other").is_none());
}

#[test]
fn test_get_all() {
    let mut store = MetadataStore::new();
    store.insert(0, "a", MetadataValue::Integer(1)).unwrap();
    store.insert(0, "b", MetadataValue::Integer(2)).unwrap();

    let all = store.get_all(0).unwrap();
    assert_eq!(all.len(), 2);
    assert!(all.contains_key("a"));
    assert!(all.contains_key("b"));
}

#[test]
fn test_get_all_nonexistent_vector() {
    let store = MetadataStore::new();
    assert!(store.get_all(999).is_none());
}

#[test]
fn test_delete_returns_true_when_exists() {
    let mut store = MetadataStore::new();
    store.insert(0, "key", MetadataValue::Integer(1)).unwrap();
    assert!(store.delete(0, "key").unwrap());
    assert!(!store.has_key(0, "key"));
}

#[test]
fn test_delete_returns_false_when_not_exists() {
    let mut store = MetadataStore::new();
    assert!(!store.delete(0, "key").unwrap());
}

#[test]
fn test_delete_cleans_up_empty_vector() {
    let mut store = MetadataStore::new();
    store.insert(0, "key", MetadataValue::Integer(1)).unwrap();
    assert_eq!(store.vector_count(), 1);

    store.delete(0, "key").unwrap();
    assert_eq!(store.vector_count(), 0);
    assert!(store.is_empty());
}

#[test]
fn test_delete_all() {
    let mut store = MetadataStore::new();
    store.insert(0, "a", MetadataValue::Integer(1)).unwrap();
    store.insert(0, "b", MetadataValue::Integer(2)).unwrap();

    assert!(store.delete_all(0));
    assert!(!store.delete_all(0)); // Already deleted
    assert!(store.is_empty());
}

#[test]
fn test_delete_all_nonexistent_vector() {
    let mut store = MetadataStore::new();
    assert!(!store.delete_all(999));
}

#[test]
fn test_has_key() {
    let mut store = MetadataStore::new();
    store.insert(0, "key", MetadataValue::Integer(1)).unwrap();

    assert!(store.has_key(0, "key"));
    assert!(!store.has_key(0, "other"));
    assert!(!store.has_key(999, "key"));
}

#[test]
fn test_keys() {
    let mut store = MetadataStore::new();
    store.insert(0, "a", MetadataValue::Integer(1)).unwrap();
    store.insert(0, "b", MetadataValue::Integer(2)).unwrap();

    let keys: Vec<String> = store.keys(0).unwrap();
    assert_eq!(keys.len(), 2);
    assert!(keys.contains(&"a".to_string()));
    assert!(keys.contains(&"b".to_string()));
}

#[test]
fn test_keys_nonexistent_vector() {
    let store = MetadataStore::new();
    assert!(store.keys(999).is_none());
}

#[test]
fn test_key_count() {
    let mut store = MetadataStore::new();
    assert_eq!(store.key_count(0), 0);

    store.insert(0, "a", MetadataValue::Integer(1)).unwrap();
    assert_eq!(store.key_count(0), 1);

    store.insert(0, "b", MetadataValue::Integer(2)).unwrap();
    assert_eq!(store.key_count(0), 2);
}

#[test]
fn test_vector_count() {
    let mut store = MetadataStore::new();
    assert_eq!(store.vector_count(), 0);

    store.insert(0, "a", MetadataValue::Integer(1)).unwrap();
    assert_eq!(store.vector_count(), 1);

    store.insert(1, "b", MetadataValue::Integer(2)).unwrap();
    assert_eq!(store.vector_count(), 2);
}

#[test]
fn test_clear() {
    let mut store = MetadataStore::new();
    store.insert(0, "a", MetadataValue::Integer(1)).unwrap();
    store.insert(1, "b", MetadataValue::Integer(2)).unwrap();

    store.clear();
    assert!(store.is_empty());
    assert_eq!(store.vector_count(), 0);
}

#[test]
fn test_merge() {
    let mut store1 = MetadataStore::new();
    store1.insert(0, "a", MetadataValue::Integer(1)).unwrap();

    let mut store2 = MetadataStore::new();
    store2.insert(0, "b", MetadataValue::Integer(2)).unwrap();
    store2.insert(1, "c", MetadataValue::Integer(3)).unwrap();

    store1.merge(store2).unwrap();

    assert_eq!(store1.key_count(0), 2);
    assert_eq!(store1.key_count(1), 1);
    assert_eq!(store1.get(0, "a").unwrap().as_integer(), Some(1));
    assert_eq!(store1.get(0, "b").unwrap().as_integer(), Some(2));
    assert_eq!(store1.get(1, "c").unwrap().as_integer(), Some(3));
}

#[test]
fn test_merge_overwrites() {
    let mut store1 = MetadataStore::new();
    store1.insert(0, "key", MetadataValue::Integer(1)).unwrap();

    let mut store2 = MetadataStore::new();
    store2.insert(0, "key", MetadataValue::Integer(2)).unwrap();

    store1.merge(store2).unwrap();
    assert_eq!(store1.get(0, "key").unwrap().as_integer(), Some(2));
}

#[test]
fn test_merge_exceeds_key_limit_fails() {
    let mut store1 = MetadataStore::new();
    let mut store2 = MetadataStore::new();

    // Add 40 keys to vector 0 in store1
    for i in 0..40 {
        store1
            .insert(
                0,
                &format!("key_a_{i}"),
                MetadataValue::Integer(i64::from(i)),
            )
            .unwrap();
    }

    // Add 40 different keys to vector 0 in store2
    for i in 0..40 {
        store2
            .insert(
                0,
                &format!("key_b_{i}"),
                MetadataValue::Integer(i64::from(i)),
            )
            .unwrap();
    }

    // Merge should fail because 40 + 40 = 80 > 64
    let result = store1.merge(store2);
    assert!(matches!(result, Err(MetadataError::TooManyKeys { .. })));

    // Original store should be unchanged (verify &mut self preserves store on error)
    assert_eq!(store1.key_count(0), 40);
    // Verify we can still use the store after failed merge
    assert!(store1.has_key(0, "key_a_0"));
    store1
        .insert(0, "key_a_0", MetadataValue::Integer(999))
        .unwrap();
    assert_eq!(store1.get(0, "key_a_0").unwrap().as_integer(), Some(999));
}

#[test]
fn test_merge_at_limit_with_overlap_succeeds() {
    let mut store1 = MetadataStore::new();
    let mut store2 = MetadataStore::new();

    // Add 64 keys to vector 0 in store1
    for i in 0..64 {
        store1
            .insert(0, &format!("key_{i}"), MetadataValue::Integer(1))
            .unwrap();
    }

    // Add overlapping keys to store2 (same keys, different values)
    for i in 0..10 {
        store2
            .insert(0, &format!("key_{i}"), MetadataValue::Integer(2))
            .unwrap();
    }

    // Merge should succeed because all keys overlap (64 unique keys after merge)
    store1.merge(store2).unwrap();
    assert_eq!(store1.key_count(0), 64);

    // Values should be overwritten
    assert_eq!(store1.get(0, "key_0").unwrap().as_integer(), Some(2));
}

#[test]
fn test_merge_unchecked_allows_exceeding_limit() {
    let mut store1 = MetadataStore::new();
    let mut store2 = MetadataStore::new();

    // Add 40 keys to vector 0 in each store
    for i in 0..40 {
        store1
            .insert(
                0,
                &format!("key_a_{i}"),
                MetadataValue::Integer(i64::from(i)),
            )
            .unwrap();
        store2
            .insert(
                0,
                &format!("key_b_{i}"),
                MetadataValue::Integer(i64::from(i)),
            )
            .unwrap();
    }

    // merge_unchecked allows exceeding the limit
    store1.merge_unchecked(store2);
    assert_eq!(store1.key_count(0), 80); // Exceeds limit but allowed
}

#[test]
fn test_vector_ids() {
    let mut store = MetadataStore::new();
    store.insert(0, "a", MetadataValue::Integer(1)).unwrap();
    store.insert(5, "b", MetadataValue::Integer(2)).unwrap();

    let ids: Vec<u32> = store.vector_ids();
    assert_eq!(ids.len(), 2);
    assert!(ids.contains(&0));
    assert!(ids.contains(&5));
}

#[test]
fn test_total_key_count() {
    let mut store = MetadataStore::new();
    assert_eq!(store.total_key_count(), 0);

    store.insert(0, "a", MetadataValue::Integer(1)).unwrap();
    store.insert(0, "b", MetadataValue::Integer(2)).unwrap();
    store.insert(1, "c", MetadataValue::Integer(3)).unwrap();

    assert_eq!(store.total_key_count(), 3);
}

const SAMPLE_KEYS: [&str; 4] = ["a", "key_one", "zz", "abcdefghij"];
const SAMPLE_IDS: [u32; 3] = [0, 17, u32::MAX];

#[test]
fn prop_insert_then_get() {
    for vector_id in SAMPLE_IDS {
        for key in SAMPLE_KEYS {
            for value in [i64::MIN, -1, 0, 42, i64::MAX] {
                let mut store = MetadataStore::new();
                store.insert(vector_id, key, MetadataValue::Integer(value)).unwrap();
                assert_eq!(store.get(vector_id, key).unwrap().as_integer(), Some(value));
            }
        }
    }
}

#[test]
fn prop_insert_then_delete() {
    for vector_id in SAMPLE_IDS {
        for key in SAMPLE_KEYS {
            let mut store = MetadataStore::new();
            store.insert(vector_id, key, MetadataValue::Boolean(true)).unwrap();
            store.delete(vector_id, key).unwrap();
            assert!(!store.has_key(vector_id, key));
        }
    }
}

#[test]
fn prop_delete_cleans_empty_vectors() {
    for vector_id in SAMPLE_IDS {
        for key in SAMPLE_KEYS {
            let mut store = MetadataStore::new();
            store.insert(vector_id, key, MetadataValue::Integer(1)).unwrap();
            store.delete(vector_id, key).unwrap();
            assert!(store.is_empty());
        }
    }
}

#[test]
fn prop_serialization_roundtrip() {
    for vector_id in SAMPLE_IDS {
        for key in SAMPLE_KEYS {
            for value in [i64::MIN, 0, i64::MAX] {
                let mut store = MetadataStore::new();
                store.insert(vector_id, key, MetadataValue::Integer(value)).unwrap();
                let loaded = MetadataStore::from_entries(store.to_entries());
                assert_eq!(store, loaded);
            }
        }
    }
}

#[test]
fn prop_key_count_accurate() {
    let cases: [&[&str]; 3] = [&["a"], &["a", "b", "a"], &["x", "y", "z", "x", "y", "w", "v"]];
    for vector_id in SAMPLE_IDS {
        for keys in cases {
            let mut store = MetadataStore::new();
            let mut unique_keys = std::collections::HashSet::new();
            for key in keys {
                store.insert(vector_id, key, MetadataValue::Integer(1)).unwrap();
                unique_keys.insert(key.to_string());
            }
            assert_eq!(store.key_count(vector_id), unique_keys.len());
        }
    }
}

#[test]
fn prop_update_preserves_other_keys() {
    for vector_id in SAMPLE_IDS {
        for (key1, key2) in [("a", "bbbbbb"), ("abcde", "abcdef")] {
            for (v1, v2, v3) in [(1i64, 2i64, 3i64), (i64::MIN, i64::MAX, 0)] {
                let mut store = MetadataStore::new();
                store.insert(vector_id, key1, MetadataValue::Integer(v1)).unwrap();
                store.insert(vector_id, key2, MetadataValue::Integer(v2)).unwrap();
                store.update(vector_id, key1, MetadataValue::Integer(v3)).unwrap();
                assert_eq!(store.get(vector_id, key2).unwrap().as_integer(), Some(v2));
                assert_eq!(store.get(vector_id, key1).unwrap().as_integer(), Some(v3));
            }
        }
    }
}

#[test]
fn test_update_preserves_other_keys() {
    let mut store = MetadataStore::new();
    store.insert(7, "first", MetadataValue::Integer(1)).unwrap();
    store.insert(7, "second", MetadataValue::Integer(2)).unwrap();
    store.update(7, "first", MetadataValue::Integer(3)).unwrap();
    assert_eq!(store.get(7, "second").unwrap().as_integer(), Some(2));
    assert_eq!(store.get(7, "first").unwrap().as_integer(), Some(3));
}

#[test]
fn test_key_count_counts_distinct_keys() {
    let mut store = MetadataStore::new();
    for key in ["a", "b", "a", "c", "b"] {
        store.insert(3, key, MetadataValue::Integer(1)).unwrap();
    }
    assert_eq!(store.key_count(3), 3);
}

#[test]
fn test_merge_reports_counts() {
    let mut store1 = MetadataStore::new();
    let mut store2 = MetadataStore::new();
    for i in 0..40 {
        store1.insert(2, &format!("a_{i}"), MetadataValue::Integer(1)).unwrap();
        store2.insert(2, &format!("b_{i}"), MetadataValue::Integer(1)).unwrap();
    }
    match store1.merge(store2) {
        Err(MetadataError::TooManyKeys { vector_id, count, max }) => {
            assert_eq!(vector_id, 2);
            assert_eq!(count, 80);
            assert_eq!(max, 64);
        }
        _ => panic!("expected TooManyKeys"),
    }
}

#[test]
fn test_insert_error_details() {
    let mut store = MetadataStore::new();
    for i in 0..MAX_KEYS_PER_VECTOR {
        store.insert(9, &format!("k{i}"), MetadataValue::Boolean(true)).unwrap();
    }
    assert_eq!(
        store.insert(9, "extra", MetadataValue::Boolean(true)),
        Err(MetadataError::TooManyKeys { vector_id: 9, count: 64, max: 64 })
    );
    assert_eq!(
        store.update(10, "k0", MetadataValue::Boolean(true)),
        Err(MetadataError::VectorNotFound { vector_id: 10 })
    );
    assert_eq!(
        store.update(9, "nope", MetadataValue::Boolean(true)),
        Err(MetadataError::KeyNotFound { vector_id: 9, key: "nope".to_string() })
    );
}

#[test]
fn test_entries_roundtrip() {
    let mut store = MetadataStore::new();
    store.insert(1, "key", MetadataValue::String("value".into())).unwrap();
    store.insert(1, "count", MetadataValue::Integer(42)).unwrap();
    store.insert(2, "price", float_value(29.99)).unwrap();
    store
        .insert(2, "tags", MetadataValue::StringArray(vec!["a".into(), "b".into()]))
        .unwrap();
    let entries = store.to_entries();
    assert_eq!(entries.len(), 4);
    let restored = MetadataStore::from_entries(entries);
    assert_eq!(store, restored);
    assert_eq!(restored.get(2, "price"), store.get(2, "price"));
}

#[test]
fn test_from_entries_skips_invalid() {
    let entries = vec![
        (1u32, "ok".to_string(), MetadataValue::Integer(1)),
        (1u32, "bad-key".to_string(), MetadataValue::Integer(2)),
        (1u32, "nan".to_string(), float_value(f64::NAN)),
        (2u32, "ok".to_string(), MetadataValue::Boolean(false)),
    ];
    let store = MetadataStore::from_entries(entries);
    assert_eq!(store.total_key_count(), 2);
    assert!(!store.has_key(1, "bad-key"));
    assert!(!store.has_key(1, "nan"));
}

#[test]
fn test_store_crc() {
    let data = b"metadata bytes";
    let crc = MetadataStore::calculate_crc(data);
    assert_eq!(crc, crc32fast::hash(data));
    assert!(MetadataStore::verify_crc(data, crc).is_ok());
    assert!(MetadataStore::verify_crc(data, crc ^ 1).is_err());
}

#[test]
fn test_store_inequality() {
    let mut a = MetadataStore::new();
    let mut b = MetadataStore::new();
    a.insert(0, "k", MetadataValue::Integer(1)).unwrap();
    b.insert(0, "k", MetadataValue::Integer(2)).unwrap();
    assert_ne!(a, b);
    b.insert(0, "k", MetadataValue::Integer(1)).unwrap();
    assert_eq!(a, b);
    b.insert(1, "k", MetadataValue::Integer(1)).unwrap();
    assert_ne!(a, b);
}

#[test]
fn from_entries_keeps_more_than_the_key_limit() {
    let mut store1 = MetadataStore::new();
    let mut store2 = MetadataStore::new();
    for i in 0..40 {
        store1.insert(0, &format!("key_a_{i}"), MetadataValue::Integer(i64::from(i))).unwrap();
        store2.insert(0, &format!("key_b_{i}"), MetadataValue::Integer(i64::from(i))).unwrap();
    }
    store1.merge_unchecked(store2);
    assert_eq!(store1.key_count(0), 80);
    let restored = MetadataStore::from_entries(store1.to_entries());
    assert_eq!(restored.key_count(0), 80);
    assert_eq!(restored, store1);
    assert_eq!(restored.get(0, "key_b_39").unwrap().as_integer(), Some(39));
}
