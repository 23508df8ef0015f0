use refyne::cache::{create_cache_entry, create_cache_entry_at};
use refyne::store::{Cache, CacheTable, MemoryCache};

fn entry_at(value: &str, max_age: u64, now: u64) -> refyne::cache::CacheEntry {
    let header = format!("max-age={}", max_age);
    create_cache_entry_at(String::from(value), Some(header.as_str()), now).unwrap()
}

#[test]
fn test_memory_cache() {
    let cache = MemoryCache::new(2);

    let entry = create_cache_entry(String::from("\"v1\""), Some("max-age=3600")).unwrap();
    cache.set(String::from("k1"), entry);

    assert!(cache.get(&String::from("k1")).is_some());
    assert!(cache.get(&String::from("k2")).is_none());

    cache.delete(&String::from("k1"));
    assert!(cache.get(&String::from("k1")).is_none());
}

#[test]
fn test_round_trip_before_expiry() {
    let mut table = CacheTable::new(10);
    let e = entry_at("payload", 60, 1000);
    table.set(String::from("k"), e);
    let got = table.get_at(&String::from("k"), 1030).unwrap();
    assert_eq!(got.value, "payload");
    assert_eq!(got.expires_at, 1060);
}

#[test]
fn test_fifo_eviction() {
    let mut table = CacheTable::new(3);
    table.set(String::from("k1"), entry_at("v1", 600, 0));
    table.set(String::from("k2"), entry_at("v2", 600, 0));
    table.set(String::from("k3"), entry_at("v3", 600, 0));
    // a fourth distinct key evicts the first-inserted one
    table.set(String::from("k4"), entry_at("v4", 600, 0));
    assert!(table.get_at(&String::from("k1"), 1).is_none());
    assert!(table.get_at(&String::from("k2"), 1).is_some());
    assert!(table.get_at(&String::from("k3"), 1).is_some());
    assert!(table.get_at(&String::from("k4"), 1).is_some());
    assert_eq!(table.size(), 3);
}

#[test]
fn test_reinsert_keeps_eviction_order() {
    let mut table = CacheTable::new(3);
    table.set(String::from("k1"), entry_at("old", 600, 0));
    table.set(String::from("k2"), entry_at("v2", 600, 0));
    // refreshing k1 must not move it to the back of the FIFO
    table.set(String::from("k1"), entry_at("new", 600, 0));
    assert_eq!(table.get_at(&String::from("k1"), 1).unwrap().value, "new");
    table.set(String::from("k3"), entry_at("v3", 600, 0));
    // one eviction: k1, still the oldest, goes first - before k2
    table.set(String::from("k4"), entry_at("v4", 600, 0));
    assert!(table.get_at(&String::from("k1"), 1).is_none());
    assert!(table.get_at(&String::from("k2"), 1).is_some());
    assert!(table.get_at(&String::from("k3"), 1).is_some());
    assert!(table.get_at(&String::from("k4"), 1).is_some());
}

#[test]
fn test_stale_while_revalidate_window() {
    let mut table = CacheTable::new(4);
    let e = create_cache_entry_at(
        String::from("v"),
        Some("max-age=1, stale-while-revalidate=5"),
        1000,
    )
    .unwrap();
    table.set(String::from("k"), e);
    // three seconds after creation: expired, but within the stale window
    assert!(table.get_at(&String::from("k"), 1003).is_some());
    // ten seconds after creation: fully stale
    assert!(table.get_at(&String::from("k"), 1010).is_none());
}

#[test]
fn test_no_store_entry_not_stored() {
    let mut table = CacheTable::new(4);
    // a defensive double-check: even a hand-built no-store entry is discarded
    let mut e = entry_at("v", 60, 0);
    e.cache_control.no_store = true;
    table.set(String::from("k"), e);
    assert_eq!(table.size(), 0);
    assert!(table.get_at(&String::from("k"), 1).is_none());
}

#[test]
fn test_expired_entry_not_removed_by_get() {
    let mut table = CacheTable::new(4);
    table.set(String::from("k"), entry_at("v", 10, 0));
    // fully expired: a miss, but eviction on the read path is lazy
    assert!(table.get_at(&String::from("k"), 100).is_none());
    assert_eq!(table.size(), 1);
    table.delete(&String::from("k"));
    assert_eq!(table.size(), 0);
}

#[test]
fn test_clear_and_size() {
    let mut table = CacheTable::new(4);
    table.set(String::from("a"), entry_at("1", 60, 0));
    table.set(String::from("b"), entry_at("2", 60, 0));
    assert_eq!(table.size(), 2);
    table.clear();
    assert_eq!(table.size(), 0);
}

#[test]
fn test_store_never_exceeds_capacity() {
    let cache = MemoryCache::new(2);
    for i in 0..10u32 {
        let key = format!("key-{}", i);
        cache.set(key, entry_at("v", 600, 0));
        assert!(cache.size() <= 2);
    }
    assert_eq!(cache.size(), 2);
}
