use fedcore::cache::{Cache, CacheEntry, MemoryCache};

#[test]
fn set_then_get_until_expiry() {
    let mut c: MemoryCache<u32> = MemoryCache::new();
    c.set(b"k".to_vec(), 7, 10, 100);
    assert_eq!(c.get(b"k", 100), Some(&7));
    assert_eq!(c.get(b"k", 109), Some(&7));
    assert_eq!(c.get(b"k", 110), None);
    assert_eq!(c.get(b"k", 5000), None);
    assert_eq!(c.get(b"other", 100), None);
}

#[test]
fn zero_ttl_is_never_served() {
    let mut c: MemoryCache<u32> = MemoryCache::new();
    c.set(b"k".to_vec(), 7, 0, 100);
    assert_eq!(c.get(b"k", 100), None);
}

#[test]
fn expiry_does_not_wrap() {
    let mut c: MemoryCache<u32> = MemoryCache::new();
    c.set(b"k".to_vec(), 7, u64::MAX, u64::MAX - 1);
    assert_eq!(c.get(b"k", u64::MAX), Some(&7));
    let e = CacheEntry { key: b"k".to_vec(), value: 1u8, inserted_at: 10, ttl: 5 };
    assert!(e.is_live(9));
    assert!(e.is_live(14));
    assert!(!e.is_live(15));
}

#[test]
fn set_replaces_and_delete_removes() {
    let mut c: MemoryCache<String> = MemoryCache::new();
    c.set(b"a".to_vec(), "one".to_string(), 10, 0);
    c.set(b"b".to_vec(), "two".to_string(), 10, 0);
    c.set(b"a".to_vec(), "three".to_string(), 10, 5);
    assert_eq!(c.get(b"a", 12).map(|s| s.as_str()), Some("three"));
    assert_eq!(c.get(b"b", 12), None);
    assert_eq!(c.get(b"b", 9).map(|s| s.as_str()), Some("two"));
    c.delete(b"a");
    assert_eq!(c.get(b"a", 6), None);
    assert_eq!(c.get(b"b", 6).map(|s| s.as_str()), Some("two"));
    c.delete(b"missing");
    assert_eq!(c.get(b"b", 6).map(|s| s.as_str()), Some("two"));
}

#[test]
fn noop_cache_stores_nothing() {
    let mut c: Cache<u32> = Cache::noop();
    c.set(b"k".to_vec(), 7, 10, 100);
    assert_eq!(c.get(b"k", 100), None);
    c.delete(b"k");
    assert_eq!(c.get(b"k", 100), None);
}

#[test]
fn memory_backed_cache_behaves_like_the_store() {
    let mut c: Cache<u32> = Cache::in_memory();
    assert_eq!(c.get(b"k", 0), None);
    c.set(b"k".to_vec(), 7, 10, 100);
    assert_eq!(c.get(b"k", 100), Some(&7));
    assert_eq!(c.get(b"k", 110), None);
    c.set(b"k".to_vec(), 8, 10, 100);
    assert_eq!(c.get(b"k", 101), Some(&8));
    c.delete(b"k");
    assert_eq!(c.get(b"k", 101), None);
}

#[test]
fn purge_drops_only_what_expired() {
    let mut c: MemoryCache<u32> = MemoryCache::new();
    c.set(b"short".to_vec(), 1, 5, 0);
    c.set(b"long".to_vec(), 2, 50, 0);
    c.set(b"mid".to_vec(), 3, 10, 0);
    assert_eq!(c.len(), 3);
    c.purge_expired(4);
    assert_eq!(c.len(), 3);
    c.purge_expired(10);
    assert_eq!(c.len(), 1);
    assert_eq!(c.get(b"long", 10), Some(&2));
    assert_eq!(c.get(b"short", 0), None);
    let mut shared: Cache<u32> = Cache::in_memory();
    shared.set(b"k".to_vec(), 1, 5, 0);
    shared.purge_expired(5);
    assert_eq!(shared.get(b"k", 0), None);
    let mut none: Cache<u32> = Cache::noop();
    none.purge_expired(5);
    assert_eq!(none.get(b"k", 0), None);
}
