use cache_lru::CacheLru;

#[test]
fn test_new_cache() {
    let mut cache = CacheLru::new(2);
    assert_eq!(cache.get("nonexistent"), None);
}

#[test]
fn test_insert_and_get() {
    let mut cache = CacheLru::new(2);
    cache.insert("key1", 1);
    assert_eq!(cache.get("key1"), Some(1));
}

#[test]
fn test_capacity_limit() {
    let mut cache = CacheLru::new(2);
    cache.insert("key1", 1);
    cache.insert("key2", 2);
    cache.insert("key3", 3); // This should evict key1
    assert_eq!(cache.get("key1"), None);
    assert_eq!(cache.get("key2"), Some(2));
    assert_eq!(cache.get("key3"), Some(3));
}

#[test]
fn test_lru_get_eviction_order() {
    let mut cache = CacheLru::new(2);
    cache.insert("key1", 1);
    cache.insert("key2", 2);
    cache.get("key1"); // Makes key1 most recently used
    cache.insert("key3", 3); // Should evict key2
    assert_eq!(cache.get("key1"), Some(1));
    assert_eq!(cache.get("key2"), None);
    assert_eq!(cache.get("key3"), Some(3));
}

#[test]
fn test_lru_insert_eviction_order() {
    let mut cache = CacheLru::new(2);
    cache.insert("key1", 1);
    cache.insert("key2", 2);
    cache.insert("key1", 50); // Makes key1 most recently used
    cache.insert("key3", 3); // Should evict key2
    assert_eq!(cache.get("key1"), Some(50));
    assert_eq!(cache.get("key2"), None);
    assert_eq!(cache.get("key3"), Some(3));
}

#[test]
fn test_update_existing() {
    let mut cache = CacheLru::new(2);
    cache.insert("key1", 1);
    cache.insert("key1", 100);
    assert_eq!(cache.get("key1"), Some(100));
}

#[test]
fn miss_on_never_inserted_key_after_activity() {
    let mut cache = CacheLru::new(2);
    assert_eq!(cache.get("ghost_key"), None);
    cache.insert("a", 1);
    cache.insert("b", 2);
    cache.get("a");
    cache.insert("c", 3);
    assert_eq!(cache.get("ghost_key"), None);
}

#[test]
fn round_trip_survives_eviction_of_others() {
    let mut cache = CacheLru::new(1);
    cache.insert("first", 10);
    cache.insert("second", 20); // evicts "first" from the capacity-1 cache
    assert_eq!(cache.get("second"), Some(20));
    assert_eq!(cache.get("first"), None);
}

#[test]
fn resident_count_never_exceeds_capacity() {
    let mut cache = CacheLru::new(2);
    assert_eq!(cache.len(), 0);
    cache.insert("a", 1);
    assert_eq!(cache.len(), 1);
    cache.insert("b", 2);
    assert_eq!(cache.len(), 2);
    cache.insert("c", 3);
    assert_eq!(cache.len(), 2);
    cache.get("b");
    assert_eq!(cache.len(), 2);
    cache.insert("d", 4);
    assert_eq!(cache.len(), 2);
}

#[test]
fn eviction_takes_exactly_the_first_inserted_key() {
    let mut cache = CacheLru::new(3);
    cache.insert("one", 1);
    cache.insert("two", 2);
    cache.insert("three", 3);
    cache.insert("four", 4); // capacity 3: only "one" goes
    assert_eq!(cache.get("one"), None);
    assert_eq!(cache.get("two"), Some(2));
    assert_eq!(cache.get("three"), Some(3));
    assert_eq!(cache.get("four"), Some(4));
}

#[test]
fn recency_order_after_inserts_and_get() {
    let mut cache = CacheLru::new(2);
    cache.insert("a", 1);
    cache.insert("b", 2);
    let items = cache.entries_lru_to_mru();
    assert_eq!(items, vec![("a".to_string(), 1), ("b".to_string(), 2)]);
    cache.get("a"); // promotes "a" to the most-recently-used end
    let items = cache.entries_lru_to_mru();
    assert_eq!(items, vec![("b".to_string(), 2), ("a".to_string(), 1)]);
    cache.insert("c", 3); // evicts "b", the least recently used
    let items = cache.entries_lru_to_mru();
    assert_eq!(items, vec![("a".to_string(), 1), ("c".to_string(), 3)]);
}

#[test]
fn overwrite_keeps_one_resident_entry() {
    let mut cache = CacheLru::new(2);
    cache.insert("a", 1);
    cache.insert("b", 2);
    cache.insert("a", 7); // overwrite: count stays at 2, nothing evicted
    assert_eq!(cache.len(), 2);
    assert_eq!(cache.get("a"), Some(7));
    assert_eq!(cache.get("b"), Some(2));
}

#[test]
fn overwrite_counts_as_touch() {
    let mut cache = CacheLru::new(2);
    cache.insert("a", 1);
    cache.insert("b", 2);
    cache.insert("a", 9); // "a" becomes most recently used
    cache.insert("c", 3); // so "b" is the one evicted
    assert_eq!(cache.get("b"), None);
    assert_eq!(cache.get("a"), Some(9));
    assert_eq!(cache.get("c"), Some(3));
}

#[test]
fn reference_usage_scenario() {
    let mut cache = CacheLru::new(3);
    cache.insert("cuba", 7);
    cache.insert("ramona", 4);
    cache.get("cuba");
    cache.insert("ramona", 5);
    assert_eq!(cache.get("cuba"), Some(7));
    cache.insert("cuba", 283);
    assert_eq!(cache.get("cuba"), Some(283));
}

#[test]
fn empty_cache_has_no_entries() {
    let cache = CacheLru::new(5);
    assert_eq!(cache.len(), 0);
    assert_eq!(cache.entries_lru_to_mru(), vec![]);
}

#[test]
fn empty_key_is_an_ordinary_key() {
    let mut cache = CacheLru::new(2);
    cache.insert("", 42);
    assert_eq!(cache.get(""), Some(42));
    cache.insert("other", 1);
    cache.insert("third", 2); // evicts "", the least recently used
    assert_eq!(cache.get(""), None);
}
