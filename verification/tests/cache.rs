use statekit::cache::Cache;

#[test]
fn default() {
    let cache: Cache<usize> = Cache::default();
    assert_eq!(cache.len(), 0);
}

#[test]
fn insert() {
    let mut cache: Cache<usize> = Cache::default();

    cache.insert("hello", 80);

    assert_eq!(cache.len(), 1);
}

#[test]
fn clear() {
    let mut cache: Cache<usize> = Cache::default();

    cache.insert("hello", 80);
    cache.insert("hello 2", 80);
    cache.insert("hello 3", 80);

    assert_eq!(cache.len(), 3);

    cache.clear();

    assert_eq!(cache.len(), 0);
}

#[test]
fn trim() {
    let mut cache: Cache<usize> = Cache::with_max_entries(4);

    cache.insert("k0", 0);
    cache.insert("k1", 1);
    cache.insert("k2", 2);
    cache.insert("k3", 3);
    cache.insert("k4", 4);
    cache.insert("k5", 5);

    assert_eq!(6, cache.len());

    cache.trim();

    assert_eq!(4, cache.len());
}

#[test]
fn new_cache_is_empty_and_unbounded() {
    let mut cache: Cache<usize> = Cache::new();
    assert_eq!(cache.len(), 0);
    for i in 0..10 {
        cache.insert(&format!("k{}", i), i);
    }
    cache.trim();
    assert_eq!(cache.len(), 10);
}

#[test]
fn insert_returns_the_value_that_was_there() {
    let mut cache: Cache<usize> = Cache::new();
    assert_eq!(cache.insert("a", 1), None);
    assert_eq!(cache.insert("a", 2), Some(1));
    assert_eq!(cache.insert("b", 3), None);
    assert_eq!(cache.len(), 2);
    assert_eq!(cache.get("a"), Some(&2));
    assert_eq!(cache.get("b"), Some(&3));
    assert_eq!(cache.get("c"), None);
}

#[test]
fn remove_returns_the_value_that_was_there() {
    let mut cache: Cache<usize> = Cache::with_max_entries(2);
    cache.insert("a", 1);
    cache.insert("b", 2);
    assert_eq!(cache.remove("a"), Some(1));
    assert_eq!(cache.remove("a"), None);
    assert_eq!(cache.get("a"), None);
    assert_eq!(cache.get("b"), Some(&2));
    assert_eq!(cache.len(), 1);
}

#[test]
fn trim_within_the_bound_changes_nothing() {
    let mut cache: Cache<usize> = Cache::with_max_entries(3);
    cache.insert("a", 1);
    cache.insert("b", 2);
    cache.insert("c", 3);
    cache.trim();
    assert_eq!(cache.len(), 3);
    assert_eq!(cache.get("a"), Some(&1));
    assert_eq!(cache.get("b"), Some(&2));
    assert_eq!(cache.get("c"), Some(&3));
}

#[test]
fn trim_to_a_bound_of_zero_empties_the_cache() {
    let mut cache: Cache<usize> = Cache::with_max_entries(0);
    cache.insert("a", 1);
    cache.insert("b", 2);
    cache.trim();
    assert_eq!(cache.len(), 0);
    assert_eq!(cache.get("a"), None);
}

#[test]
fn trim_keeps_entries_that_were_there() {
    let mut cache: Cache<usize> = Cache::with_max_entries(2);
    for (i, key) in ["a", "b", "c", "d", "e"].iter().enumerate() {
        cache.insert(key, i);
    }
    cache.trim();
    assert_eq!(cache.len(), 2);
    let mut kept = 0;
    for (i, key) in ["a", "b", "c", "d", "e"].iter().enumerate() {
        if let Some(value) = cache.get(key) {
            assert_eq!(*value, i);
            kept += 1;
        }
    }
    assert_eq!(kept, 2);
}

#[test]
fn trim_after_clear_may_take_out_keys_that_hold_no_entry() {
    let mut cache: Cache<usize> = Cache::with_max_entries(1);
    cache.insert("a", 1);
    cache.insert("b", 2);
    cache.clear();
    cache.insert("c", 3);
    cache.insert("d", 4);
    cache.trim();
    assert!(cache.len() >= 1);
    assert!(cache.len() <= 2);
}

#[test]
fn clone_copies_the_entries() {
    let mut cache: Cache<String> = Cache::with_max_entries(5);
    cache.insert("a", "one".to_string());
    cache.insert("b", "two".to_string());
    let mut copy = cache.clone();
    assert_eq!(copy.len(), 2);
    assert_eq!(copy.get("a"), Some(&"one".to_string()));
    assert_eq!(copy.get("b"), Some(&"two".to_string()));

    copy.insert("a", "other".to_string());
    assert_eq!(cache.get("a"), Some(&"one".to_string()));
}
