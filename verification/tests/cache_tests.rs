use rust_disk_cache::cache::{CacheEntry, DiskCache};
use rust_disk_cache::crypto::EncryptionService;
use rust_disk_cache::errors::CacheError;

fn entry(value: &str, expiry: Option<i64>, access_count: usize) -> CacheEntry {
    CacheEntry { value: value.to_string(), expiry, access_count }
}

fn sorted_keys(cache: &DiskCache) -> Vec<String> {
    let mut keys: Vec<String> = cache.snapshot().into_iter().map(|(k, _)| k).collect();
    keys.sort();
    keys
}

fn entry_of(cache: &DiskCache, key: &str) -> Option<CacheEntry> {
    cache.snapshot().into_iter().find(|(k, _)| k == key).map(|(_, e)| e)
}

#[test]
fn plain_set_then_get_returns_value() {
    let mut cache = DiskCache::new(10, None);
    assert_eq!(cache.set_at("k", "v", Some(1000), 0), Ok(()));
    assert_eq!(cache.get_at("k", 500), Ok(Some("v".to_string())));
}

#[test]
fn get_of_missing_key_is_none_and_changes_nothing() {
    let mut cache = DiskCache::new(10, None);
    cache.set_at("a", "1", None, 0).unwrap();
    assert_eq!(cache.get_at("b", 0), Ok(None));
    assert_eq!(entry_of(&cache, "a"), Some(entry("1", None, 0)));
    assert_eq!(cache.len(), 1);
}

#[test]
fn entry_expires_at_its_expiry_time() {
    let mut cache = DiskCache::new(10, None);
    cache.set_at("k", "v", Some(100), 1000).unwrap();
    assert_eq!(cache.get_at("k", 1099), Ok(Some("v".to_string())));
    assert_eq!(cache.get_at("k", 1100), Ok(None));
    // both reads were counted, the expired one too
    assert_eq!(entry_of(&cache, "k"), Some(entry("v", Some(1100), 2)));
}

#[test]
fn set_replaces_value_and_resets_access_count() {
    let mut cache = DiskCache::new(10, None);
    cache.set_at("k", "old", None, 0).unwrap();
    cache.get_at("k", 0).unwrap();
    cache.get_at("k", 0).unwrap();
    cache.set_at("k", "new", Some(5), 10).unwrap();
    assert_eq!(entry_of(&cache, "k"), Some(entry("new", Some(15), 0)));
    assert_eq!(cache.len(), 1);
}

#[test]
fn eviction_removes_least_frequently_used() {
    let mut cache = DiskCache::new(2, None);
    cache.set_at("a", "1", None, 0).unwrap();
    cache.set_at("b", "2", None, 0).unwrap();
    cache.get_at("a", 0).unwrap();
    cache.get_at("a", 0).unwrap();
    cache.get_at("b", 0).unwrap();
    // "c" starts with no accesses, so it is the one to go
    cache.set_at("c", "3", None, 0).unwrap();
    assert_eq!(sorted_keys(&cache), vec!["a".to_string(), "b".to_string()]);
    cache.get_at("b", 0).unwrap();
    cache.get_at("b", 0).unwrap();
    cache.set_at("d", "4", None, 0).unwrap();
    assert_eq!(sorted_keys(&cache), vec!["a".to_string(), "b".to_string()]);
}

#[test]
fn eviction_ties_go_to_earliest_expiry() {
    let mut cache = DiskCache::new(10, None);
    let items = vec![
        ("late".to_string(), entry("1", Some(500), 3)),
        ("none".to_string(), entry("2", None, 3)),
        ("early".to_string(), entry("3", Some(50), 3)),
        ("busy".to_string(), entry("4", Some(10), 9)),
    ];
    cache.load_entries(items).unwrap();
    let mut small = DiskCache::new(2, None);
    small.load_entries(cache.snapshot()).unwrap();
    // at time 100, "none" ranks as expiring at 100: between "early" and "late"
    small.evict_if_necessary_at(100);
    assert_eq!(sorted_keys(&small), vec!["busy".to_string(), "late".to_string()]);
}

#[test]
fn capacity_zero_keeps_nothing() {
    let mut cache = DiskCache::new(0, None);
    cache.set_at("a", "1", None, 0).unwrap();
    assert_eq!(cache.len(), 0);
    assert_eq!(cache.get_at("a", 0), Ok(None));
}

#[test]
fn write_keeps_size_within_capacity() {
    let mut cache = DiskCache::new(3, None);
    for i in 0..10 {
        cache.set_at(&format!("k{}", i), "v", None, i).unwrap();
        assert!(cache.len() <= 3);
    }
    assert_eq!(cache.len(), 3);
    assert_eq!(cache.max_cache_size(), 3);
}

#[test]
fn cleanup_least_frequently_used_trims_by_count() {
    let mut cache = DiskCache::new(1, None);
    cache
        .load_entries(vec![
            ("x".to_string(), entry("1", None, 1)),
            ("y".to_string(), entry("2", None, 7)),
            ("z".to_string(), entry("3", None, 2)),
        ])
        .unwrap();
    cache.cleanup_least_frequently_used();
    assert_eq!(sorted_keys(&cache), vec!["y".to_string()]);
}

#[test]
fn cleanup_drops_exactly_expired_entries() {
    let mut cache = DiskCache::new(10, None);
    cache
        .load_entries(vec![
            ("gone".to_string(), entry("1", Some(10), 0)),
            ("edge".to_string(), entry("2", Some(20), 0)),
            ("kept".to_string(), entry("3", Some(21), 4)),
            ("forever".to_string(), entry("4", None, 0)),
        ])
        .unwrap();
    cache.cleanup_at(20);
    assert_eq!(sorted_keys(&cache), vec!["forever".to_string(), "kept".to_string()]);
    assert_eq!(entry_of(&cache, "kept"), Some(entry("3", Some(21), 4)));
}

#[test]
fn load_entries_later_pair_wins() {
    let mut cache = DiskCache::new(10, None);
    cache.set_at("old", "x", None, 0).unwrap();
    cache
        .load_entries(vec![
            ("k".to_string(), entry("first", None, 1)),
            ("k".to_string(), entry("second", None, 2)),
        ])
        .unwrap();
    assert_eq!(sorted_keys(&cache), vec!["k".to_string()]);
    assert_eq!(entry_of(&cache, "k"), Some(entry("second", None, 2)));
}

#[test]
fn encrypted_set_then_get_returns_value() {
    let svc = EncryptionService::new(vec![7u8; 32]).unwrap();
    let mut cache = DiskCache::new(10, Some(svc));
    assert!(cache.encryption_enabled());
    cache.set_at("secret", "plain text ü", None, 0).unwrap();
    let stored = entry_of(&cache, "secret").unwrap();
    assert_ne!(stored.value, "plain text ü");
    assert_eq!(cache.get_at("secret", 1), Ok(Some("plain text ü".to_string())));
}

#[test]
fn encrypted_get_of_tampered_value_is_decryption_error() {
    let svc = EncryptionService::new(vec![7u8; 32]).unwrap();
    let mut cache = DiskCache::new(10, Some(svc));
    let items = vec![("k".to_string(), entry("not a ciphertext at all", None, 0))];
    assert_eq!(cache.load_entries(items), Err(CacheError::IntegrityError));
    // the map was replaced all the same
    assert_eq!(cache.len(), 1);
    assert_eq!(cache.get_at("k", 0), Err(CacheError::DecryptionError));
}

#[test]
fn load_entries_accepts_readable_encrypted_entries() {
    let svc = EncryptionService::new(vec![3u8; 32]).unwrap();
    let mut cache = DiskCache::new(10, Some(svc));
    cache.set_at("a", "alpha", Some(100), 0).unwrap();
    let snapshot = cache.snapshot();
    let svc2 = EncryptionService::new(vec![3u8; 32]).unwrap();
    let mut other = DiskCache::new(10, Some(svc2));
    assert_eq!(other.load_entries(snapshot), Ok(()));
    assert_eq!(other.get_at("a", 50), Ok(Some("alpha".to_string())));
    let wrong = EncryptionService::new(vec![4u8; 32]).unwrap();
    let mut wrong_cache = DiskCache::new(10, Some(wrong));
    assert_eq!(wrong_cache.load_entries(cache.snapshot()), Err(CacheError::IntegrityError));
}

#[test]
fn wall_clock_set_and_get() {
    let mut cache = DiskCache::new(10, None);
    cache.set("k", "v", Some(60_000)).unwrap();
    assert_eq!(cache.get("k"), Ok(Some("v".to_string())));
    cache.set("short", "v", Some(0)).unwrap();
    assert_eq!(cache.get("short"), Ok(None));
    cache.cleanup();
    assert_eq!(sorted_keys(&cache), vec!["k".to_string()]);
    cache.evict_if_necessary();
    assert_eq!(cache.len(), 1);
}

#[test]
fn entry_expiry_checks() {
    let e = entry("v", Some(10), 0);
    assert!(e.is_expired_at(10));
    assert!(!e.is_expired_at(9));
    assert!(e.is_expired());
    assert!(!entry("v", None, 0).is_expired());
    assert!(!entry("v", Some(i64::MAX), 0).is_expired());
    assert_eq!(e.duplicate(), e);
}
