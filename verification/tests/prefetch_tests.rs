use rust_disk_cache::cache::DiskCache;
use rust_disk_cache::optimizer::PerformanceOptimizer;
use rust_disk_cache::prefetch::Prefetcher;
use rust_disk_cache::simple_cache::{load_data_for_key, CacheEntry, SimpleCache};

fn sorted(mut v: Vec<String>) -> Vec<String> {
    v.sort();
    v
}

#[test]
fn first_access_counts_as_hot() {
    let mut p = Prefetcher::new();
    p.record_access_at("k", 1000);
    assert_eq!(p.keys_to_prefetch(), vec!["k".to_string()]);
}

#[test]
fn hot_keys_are_those_reaccessed_within_five_seconds() {
    let mut p = Prefetcher::new();
    p.record_access_at("fast", 0);
    p.record_access_at("slow", 0);
    p.record_access_at("edge", 0);
    p.record_access_at("fast", 4999);
    p.record_access_at("slow", 6000);
    p.record_access_at("edge", 5000);
    assert_eq!(p.keys_to_prefetch(), vec!["fast".to_string()]);
    // a clock going backwards counts as no time passing
    p.record_access_at("slow", 10);
    assert_eq!(sorted(p.keys_to_prefetch()), vec!["fast".to_string(), "slow".to_string()]);
}

#[test]
fn predict_and_prefetch_loads_hot_keys() {
    let mut p = Prefetcher::new();
    p.record_access("a");
    p.record_access_at("b", 0);
    p.record_access_at("b", 100_000);
    let mut cache = SimpleCache::new();
    cache.set("b".to_string(), CacheEntry { data: "old".to_string() });
    cache.set("z".to_string(), CacheEntry { data: "other".to_string() });
    let keys = p.predict_and_prefetch(&mut cache);
    assert_eq!(sorted(keys), vec!["a".to_string()]);
    assert_eq!(cache.get("a"), Some(CacheEntry { data: "Data for a".to_string() }));
    assert_eq!(cache.get("b"), Some(CacheEntry { data: "old".to_string() }));
    assert_eq!(cache.get("z").map(|e| e.data), Some("other".to_string()));
    assert_eq!(cache.len(), 3);
}

#[test]
fn simple_cache_get_after_set() {
    let mut cache = SimpleCache::new();
    assert_eq!(cache.get("k"), None);
    cache.set("k".to_string(), load_data_for_key("k"));
    cache.set("k".to_string(), CacheEntry { data: "newer".to_string() });
    assert_eq!(cache.get("k"), Some(CacheEntry { data: "newer".to_string() }));
    assert_eq!(load_data_for_key("key").data, "Data for key");
    assert_eq!(CacheEntry { data: "d".to_string() }.duplicate().data, "d");
}

#[test]
fn optimizer_keeps_found_values() {
    let mut storage = DiskCache::new(10, None);
    storage.set_at("a", "alpha", None, 0).unwrap();
    storage.set_at("b", "beta", Some(10), 0).unwrap();
    let mut opt = PerformanceOptimizer::new();
    let keys = vec!["a".to_string(), "b".to_string(), "c".to_string()];
    opt.prefetch_data_at(&mut storage, &keys, 20);
    assert_eq!(opt.get_prefetched_data("a"), Some("alpha".to_string()));
    assert_eq!(opt.get_prefetched_data("b"), None);
    assert_eq!(opt.get_prefetched_data("c"), None);
    let counts: Vec<usize> = {
        let mut s = storage.snapshot();
        s.sort_by(|x, y| x.0.cmp(&y.0));
        s.into_iter().map(|(_, e)| e.access_count).collect()
    };
    assert_eq!(counts, vec![1, 1]);
}

#[test]
fn optimizer_wall_clock_prefetch() {
    let mut storage = DiskCache::new(10, None);
    storage.set_at("a", "alpha", None, 0).unwrap();
    let mut opt = PerformanceOptimizer::new();
    opt.prefetch_data(&mut storage, &vec!["a".to_string(), "z".to_string()]);
    assert_eq!(opt.get_prefetched_data("a"), Some("alpha".to_string()));
    assert_eq!(opt.get_prefetched_data("z"), None);
}
