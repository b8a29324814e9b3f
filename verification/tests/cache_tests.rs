//! Behavioural tests for the tiered cache: routing, eviction order,
//! removal, clearing, statistics and update notifications.

use tiered_cache::CacheConfig;
use tiered_cache::TierConfig;
use tiered_cache::TieredCache;

fn two_tier_config() -> CacheConfig {
    CacheConfig {
        tiers: vec![
            TierConfig { total_capacity: 1000, size_range: (0, 100) },
            TierConfig { total_capacity: 2000, size_range: (100, 1000) },
        ],
        update_channel_size: None,
    }
}

fn eviction_config() -> CacheConfig {
    CacheConfig {
        tiers: vec![
            TierConfig { total_capacity: 1000, size_range: (0, 200) },
            TierConfig { total_capacity: 4000, size_range: (200, 1000) },
        ],
        update_channel_size: None,
    }
}

fn bytes(n: usize) -> Vec<u8> {
    vec![7u8; n]
}

#[test]
fn put_then_get_returns_value() {
    let mut cache: TieredCache<Vec<u8>> = TieredCache::new(two_tier_config());
    assert_eq!(cache.put(String::from("a"), bytes(50)), None);
    let got = cache.get(&String::from("a")).expect("cached value must be present");
    assert_eq!(*got, bytes(50));
    let stats = cache.stats();
    assert_eq!(stats.total_items, 1);
    assert_eq!(stats.total_size, 50);
    assert_eq!(stats.tier_stats[0].items, 1);
    assert_eq!(stats.tier_stats[1].items, 0);
}

#[test]
fn routes_to_second_tier() {
    let mut cache: TieredCache<Vec<u8>> = TieredCache::new(two_tier_config());
    assert_eq!(cache.put(String::from("b"), bytes(500)), None);
    let got = cache.get(&String::from("b")).expect("value of size 500 must be cached");
    assert_eq!(*got, bytes(500));
    let stats = cache.stats();
    assert_eq!(stats.tier_stats[0].items, 0);
    assert_eq!(stats.tier_stats[1].items, 1);
    assert_eq!(stats.tier_stats[1].size, 500);
}

#[test]
fn same_range_routes_to_same_tier() {
    let mut cache: TieredCache<Vec<u8>> = TieredCache::new(two_tier_config());
    cache.put(String::from("x"), bytes(120));
    cache.put(String::from("y"), bytes(900));
    let stats = cache.stats();
    assert_eq!(stats.tier_stats[1].items, 2);
    assert_eq!(stats.tier_stats[0].items, 0);
}

#[test]
fn boundary_sizes_route_to_different_tiers() {
    let mut cache: TieredCache<Vec<u8>> = TieredCache::new(two_tier_config());
    cache.put(String::from("small"), bytes(99));
    cache.put(String::from("large"), bytes(100));
    let stats = cache.stats();
    assert_eq!(stats.tier_stats[0].items, 1);
    assert_eq!(stats.tier_stats[1].items, 1);
}

#[test]
fn fast_path_accepts_sizes_below_first_tier_minimum() {
    let config = CacheConfig {
        tiers: vec![
            TierConfig { total_capacity: 1000, size_range: (10, 100) },
            TierConfig { total_capacity: 2000, size_range: (100, 1000) },
        ],
        update_channel_size: None,
    };
    let mut cache: TieredCache<Vec<u8>> = TieredCache::new(config);
    // 5 bytes is below tier 0's lower bound but below its upper bound, so
    // the fast path still routes it to tier 0.
    assert_eq!(cache.put(String::from("tiny"), bytes(5)), None);
    let stats = cache.stats();
    assert_eq!(stats.tier_stats[0].items, 1);
    assert!(cache.get(&String::from("tiny")).is_some());
}

#[test]
fn eleventh_insert_evicts_least_recently_used() {
    let mut cache: TieredCache<Vec<u8>> = TieredCache::new(eviction_config());
    for i in 0..10 {
        cache.put(format!("k{}", i), bytes(100));
    }
    let full = cache.stats();
    assert_eq!(full.tier_stats[0].items, 10);
    assert_eq!(full.tier_stats[0].size, 1000);
    // The tier is at capacity: the next insert must evict the least
    // recently used entry, which is the first one inserted.
    cache.put(String::from("k10"), bytes(100));
    let after = cache.stats();
    assert_eq!(after.tier_stats[0].items, 10);
    assert_eq!(after.tier_stats[0].size, 1000);
    assert!(cache.get(&String::from("k0")).is_none());
    assert!(cache.get(&String::from("k1")).is_some());
    assert!(cache.get(&String::from("k10")).is_some());
}

#[test]
fn access_protects_entry_from_eviction() {
    let mut cache: TieredCache<Vec<u8>> = TieredCache::new(eviction_config());
    for i in 0..10 {
        cache.put(format!("k{}", i), bytes(100));
    }
    // Touch k0: it becomes the most recently used entry, so the next
    // eviction must fall on k1 instead.
    assert!(cache.get(&String::from("k0")).is_some());
    cache.put(String::from("k10"), bytes(100));
    assert!(cache.get(&String::from("k0")).is_some());
    assert!(cache.get(&String::from("k1")).is_none());
    let stats = cache.stats();
    assert_eq!(stats.tier_stats[0].size, 1000);
}

#[test]
fn remove_returns_prior_value_and_get_reports_absence() {
    let mut cache: TieredCache<Vec<u8>> = TieredCache::new(two_tier_config());
    cache.put(String::from("k"), bytes(40));
    assert_eq!(cache.remove(&String::from("k")), Some(bytes(40)));
    assert!(cache.get(&String::from("k")).is_none());
    assert_eq!(cache.remove(&String::from("k")), None);
    let stats = cache.stats();
    assert_eq!(stats.total_items, 0);
    assert_eq!(stats.total_size, 0);
}

#[test]
fn clear_empties_every_tier_and_the_index() {
    let mut cache: TieredCache<Vec<u8>> = TieredCache::new(two_tier_config());
    cache.put(String::from("a"), bytes(50));
    cache.put(String::from("b"), bytes(500));
    cache.put(String::from("c"), bytes(70));
    cache.clear();
    assert!(cache.get(&String::from("a")).is_none());
    assert!(cache.get(&String::from("b")).is_none());
    assert!(cache.get(&String::from("c")).is_none());
    let stats = cache.stats();
    assert_eq!(stats.total_items, 0);
    assert_eq!(stats.total_size, 0);
    assert_eq!(stats.tier_stats[0].items, 0);
    assert_eq!(stats.tier_stats[1].items, 0);
}

#[test]
fn stats_totals_equal_tier_sums() {
    let mut cache: TieredCache<Vec<u8>> = TieredCache::new(two_tier_config());
    cache.put(String::from("a"), bytes(50));
    cache.put(String::from("b"), bytes(30));
    cache.put(String::from("c"), bytes(500));
    cache.put(String::from("d"), bytes(200));
    let stats = cache.stats();
    let item_sum: usize = stats.tier_stats.iter().map(|t| t.items).sum();
    let size_sum: usize = stats.tier_stats.iter().map(|t| t.size).sum();
    assert_eq!(stats.total_items, item_sum);
    assert_eq!(stats.total_size, size_sum);
    assert_eq!(stats.total_items, 4);
    assert_eq!(stats.total_size, 780);
}

#[test]
fn unroutable_size_is_a_silent_noop() {
    let mut cache: TieredCache<Vec<u8>> = TieredCache::new(two_tier_config());
    assert_eq!(cache.put(String::from("d"), bytes(5000)), None);
    assert!(cache.get(&String::from("d")).is_none());
    let stats = cache.stats();
    assert_eq!(stats.total_items, 0);
    assert_eq!(stats.total_size, 0);
}

#[test]
fn entry_larger_than_tier_capacity_is_rejected() {
    let config = CacheConfig {
        tiers: vec![TierConfig { total_capacity: 120, size_range: (0, 200) }],
        update_channel_size: None,
    };
    let mut cache: TieredCache<Vec<u8>> = TieredCache::new(config);
    // Documented policy: an entry whose size exceeds its tier's whole
    // capacity is never inserted, indistinguishable from an unroutable one.
    assert_eq!(cache.put(String::from("big"), bytes(150)), None);
    assert!(cache.get(&String::from("big")).is_none());
    let stats = cache.stats();
    assert_eq!(stats.total_items, 0);
    assert_eq!(stats.total_size, 0);
}

#[test]
fn replacing_a_key_returns_previous_value() {
    let mut cache: TieredCache<Vec<u8>> = TieredCache::new(two_tier_config());
    assert_eq!(cache.put(String::from("k"), bytes(50)), None);
    assert_eq!(cache.put(String::from("k"), vec![9u8; 60]), Some(bytes(50)));
    let got = cache.get(&String::from("k")).expect("replaced key must stay cached");
    assert_eq!(*got, vec![9u8; 60]);
    let stats = cache.stats();
    assert_eq!(stats.total_items, 1);
    assert_eq!(stats.total_size, 60);
}

#[test]
fn empty_configuration_caches_nothing() {
    let config = CacheConfig { tiers: vec![], update_channel_size: None };
    let mut cache: TieredCache<Vec<u8>> = TieredCache::new(config);
    assert_eq!(cache.put(String::from("a"), bytes(1)), None);
    assert!(cache.get(&String::from("a")).is_none());
    let stats = cache.stats();
    assert_eq!(stats.total_items, 0);
    assert_eq!(stats.tier_stats.len(), 0);
}

#[test]
fn rerouting_overwrite_leaves_stale_entry_in_old_tier() {
    // Documented behaviour of the minimal contract: when a key's new value
    // routes to a different tier, the old tier's entry is not cleaned up.
    // Lookups go through the key index, so the fresh value is observed; the
    // stale entry still counts in the old tier's statistics until it is
    // evicted or cleared.
    let mut cache: TieredCache<Vec<u8>> = TieredCache::new(two_tier_config());
    cache.put(String::from("k"), bytes(50));
    cache.put(String::from("k"), bytes(500));
    let got = cache.get(&String::from("k")).expect("re-routed key must be observable");
    assert_eq!(*got, bytes(500));
    let stats = cache.stats();
    assert_eq!(stats.tier_stats[0].items, 1);
    assert_eq!(stats.tier_stats[1].items, 1);
    assert_eq!(stats.total_items, 2);
}

#[test]
fn update_value_stores_and_notifies() {
    let config = CacheConfig {
        tiers: vec![
            TierConfig { total_capacity: 1000, size_range: (0, 100) },
            TierConfig { total_capacity: 2000, size_range: (100, 1000) },
        ],
        update_channel_size: Some(8),
    };
    let mut cache: TieredCache<Vec<u8>> = TieredCache::new(config);
    let mut rx = cache.subscribe_updates().expect("notifications are configured");
    assert!(cache.get(&String::from("c")).is_none());
    let returned = cache
        .update_value(String::from("c"), Some(bytes(40)))
        .expect("a produced value is returned");
    assert_eq!(*returned, bytes(40));
    let got = cache.get(&String::from("c")).expect("produced value must be cached");
    assert_eq!(*got, bytes(40));
    assert_eq!(rx.try_recv(), Ok(String::from("c")));
    assert!(rx.try_recv().is_err());
}

#[test]
fn update_value_with_no_result_caches_nothing() {
    let config = CacheConfig {
        tiers: vec![TierConfig { total_capacity: 1000, size_range: (0, 100) }],
        update_channel_size: Some(8),
    };
    let mut cache: TieredCache<Vec<u8>> = TieredCache::new(config);
    let mut rx = cache.subscribe_updates().expect("notifications are configured");
    assert!(cache.update_value(String::from("c"), None).is_none());
    assert!(cache.get(&String::from("c")).is_none());
    assert!(rx.try_recv().is_err());
}

#[test]
fn update_value_returns_value_even_when_unroutable() {
    let mut cache: TieredCache<Vec<u8>> = TieredCache::new(two_tier_config());
    // The produced value is handed back even though no tier covers its
    // size, so nothing was cached.
    let returned = cache
        .update_value(String::from("d"), Some(bytes(5000)))
        .expect("a produced value is returned");
    assert_eq!(*returned, bytes(5000));
    assert!(cache.get(&String::from("d")).is_none());
}

#[test]
fn subscribe_without_configuration_returns_nothing() {
    let cache: TieredCache<Vec<u8>> = TieredCache::new(two_tier_config());
    assert!(cache.subscribe_updates().is_none());
}

#[test]
fn receiver_only_sees_notifications_after_subscribing() {
    let config = CacheConfig {
        tiers: vec![TierConfig { total_capacity: 1000, size_range: (0, 100) }],
        update_channel_size: Some(4),
    };
    let mut cache: TieredCache<Vec<u8>> = TieredCache::new(config);
    cache.update_value(String::from("early"), Some(bytes(10)));
    let mut rx = cache.subscribe_updates().expect("notifications are configured");
    assert!(rx.try_recv().is_err());
    cache.update_value(String::from("late"), Some(bytes(10)));
    assert_eq!(rx.try_recv(), Ok(String::from("late")));
}
