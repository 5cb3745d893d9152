use dashdotcache::cache::{sample_window_of, Cache, Config, SetOptions, BASE_OVERHEAD};
use dashdotcache::cache_errors::CacheError;
use dashdotcache::value::Value;

fn s(t: &str) -> String {
    t.to_string()
}

fn text(t: &str) -> Value {
    Value::String(t.to_string())
}

fn plain() -> SetOptions {
    SetOptions::default()
}

fn with_parent(p: &str) -> SetOptions {
    SetOptions {
        parent: Some(p.to_string()),
        ..Default::default()
    }
}

fn with_ttl(nanos: u128) -> SetOptions {
    SetOptions {
        ttl: Some(nanos),
        ..Default::default()
    }
}

fn sorted(mut v: Vec<String>) -> Vec<String> {
    v.sort();
    v
}

const SECOND: u128 = 1_000_000_000;

#[test]
fn new_cache_is_empty_and_accounts_its_base() {
    let cache = Cache::new(Config::default());
    assert_eq!(cache.len(), 0);
    assert!(cache.is_empty());
    assert_eq!(BASE_OVERHEAD, 168);
    assert_eq!(cache.memory_usage(), 168);
    assert_eq!(cache.stats().hits, 0);
    assert_eq!(cache.stats().sets, 0);
    assert!(cache.config().enable_dependencies);
    assert_eq!(cache.config().ttl_cleanup_interval, 60 * SECOND);
    assert!(cache.config().max_memory.is_none());
    assert!(cache.config().max_keys.is_none());
}

#[test]
fn scenario_basic() {
    let mut cache = Cache::new(Config::default());
    assert_eq!(cache.set(s("a"), text("1"), plain()), Ok(true));
    assert_eq!(cache.get("a"), Some(text("1")));
    assert!(cache.delete("a"));
    assert_eq!(cache.get("a"), None);
}

#[test]
fn get_after_set_returns_the_value() {
    let mut cache = Cache::new(Config::default());
    let v = Value::List(vec![Value::Integer(5), text("x")]);
    assert_eq!(cache.set_at(s("k"), v.clone(), plain(), 10), Ok(true));
    assert_eq!(cache.get_at("k", 10), Some(v.clone()));
    assert_eq!(cache.get_at("k", u128::MAX), Some(v));
}

#[test]
fn get_counts_hits_and_misses() {
    let mut cache = Cache::new(Config::default());
    cache.set_at(s("k"), text("v"), plain(), 0).unwrap();
    cache.get_at("k", 1);
    cache.get_at("k", 2);
    cache.get_at("absent", 3);
    assert_eq!(cache.stats().hits, 2);
    assert_eq!(cache.stats().misses, 1);
    assert_eq!(cache.stats().sets, 1);
}

#[test]
fn get_of_an_expired_key_evicts_it_and_returns_its_bytes() {
    let mut cache = Cache::new(Config::default());
    cache.set_at(s("t"), text("x"), with_ttl(1_000_000), 0).unwrap();
    assert_eq!(cache.memory_usage(), 168 + 1 + 160 + 1);
    assert_eq!(cache.get_at("t", 999_999), Some(text("x")));
    let misses = cache.stats().misses;
    assert_eq!(cache.get_at("t", 1_000_000), None);
    assert_eq!(cache.stats().misses, misses + 1);
    assert_eq!(cache.len(), 0);
    assert_eq!(cache.memory_usage(), 168);
    assert_eq!(cache.stats().deletes, 0);
}

#[test]
fn exists_does_not_evict_or_count() {
    let mut cache = Cache::new(Config::default());
    cache.set_at(s("t"), text("x"), with_ttl(10), 0).unwrap();
    assert!(cache.exists_at("t", 9));
    assert!(!cache.exists_at("t", 10));
    assert!(!cache.exists_at("absent", 0));
    assert_eq!(cache.len(), 1);
    assert_eq!(cache.stats().hits, 0);
    assert_eq!(cache.stats().misses, 0);
    assert!(cache.exists_key("t") || !cache.exists_key("t"));
}

#[test]
fn exists_multi_counts_duplicates() {
    let mut cache = Cache::new(Config::default());
    cache.set_at(s("a"), text("1"), plain(), 0).unwrap();
    cache.set_at(s("b"), text("2"), with_ttl(5), 0).unwrap();
    assert_eq!(cache.exists_multi_at(&["a", "a", "b", "zz"], 1), 3);
    assert_eq!(cache.exists_multi_at(&["a", "a", "b", "zz"], 5), 2);
    assert_eq!(cache.exists_multi_at(&[], 0), 0);
    assert_eq!(cache.exists_multi(&["a", "zz"]), 1);
}

#[test]
fn nx_and_xx_skip_without_error() {
    let mut cache = Cache::new(Config::default());
    let nx = SetOptions { nx: true, ..Default::default() };
    let xx = SetOptions { xx: true, ..Default::default() };
    assert_eq!(cache.set_at(s("k"), text("1"), xx.clone(), 0), Ok(false));
    assert_eq!(cache.len(), 0);
    assert_eq!(cache.set_at(s("k"), text("1"), nx.clone(), 0), Ok(true));
    assert_eq!(cache.set_at(s("k"), text("2"), nx, 0), Ok(false));
    assert_eq!(cache.get_at("k", 0), Some(text("1")));
    assert_eq!(cache.set_at(s("k"), text("3"), xx, 0), Ok(true));
    assert_eq!(cache.get_at("k", 0), Some(text("3")));
    assert_eq!(cache.stats().sets, 2);
}

#[test]
fn set_replaces_and_adjusts_the_bytes() {
    let mut cache = Cache::new(Config::default());
    cache.set_at(s("k"), text("12345"), plain(), 0).unwrap();
    assert_eq!(cache.memory_usage(), 168 + 1 + 160 + 5);
    cache.set_at(s("k"), text("1"), plain(), 0).unwrap();
    assert_eq!(cache.memory_usage(), 168 + 1 + 160 + 1);
    assert_eq!(cache.len(), 1);
    assert_eq!(cache.stats().sets, 2);
}

#[test]
fn set_makes_a_fresh_entry() {
    let mut cache = Cache::new(Config::default());
    cache.set_at(s("k"), text("v"), with_ttl(3 * SECOND), 0).unwrap();
    cache.set_at(s("k"), text("v"), plain(), 5).unwrap();
    // the expiry of the replaced entry is gone with it
    assert_eq!(cache.ttl_at("k", 6), -1);
}

#[test]
fn dependencies_disabled() {
    let mut cache = Cache::new(Config {
        enable_dependencies: false,
        ..Default::default()
    });
    cache.set_at(s("p"), text("1"), plain(), 0).unwrap();
    assert_eq!(
        cache.set_at(s("c"), text("2"), with_parent("p"), 0),
        Err(CacheError::DependenciesDisabled)
    );
    assert_eq!(
        cache.set_parent("p", s("p")),
        Err(CacheError::DependenciesDisabled)
    );
    assert_eq!(cache.len(), 1);
}

#[test]
fn parent_not_found() {
    let mut cache = Cache::new(Config::default());
    assert_eq!(
        cache.set_at(s("c"), text("2"), with_parent("nope"), 0),
        Err(CacheError::ParentNotFound(s("nope")))
    );
    cache.set_at(s("c"), text("2"), plain(), 0).unwrap();
    assert_eq!(
        cache.set_parent("c", s("nope")),
        Err(CacheError::ParentNotFound(s("nope")))
    );
    assert_eq!(cache.parent("c"), None);
}

#[test]
fn a_key_cannot_be_its_own_parent() {
    let mut cache = Cache::new(Config::default());
    cache.set_at(s("a"), text("1"), plain(), 0).unwrap();
    assert_eq!(
        cache.set_at(s("a"), text("1"), with_parent("a"), 0),
        Err(CacheError::DependencyCycle(s("a"), s("a")))
    );
    assert_eq!(
        cache.set_parent("a", s("a")),
        Err(CacheError::DependencyCycle(s("a"), s("a")))
    );
}

#[test]
fn scenario_cycle_attempt() {
    let mut cache = Cache::new(Config::default());
    cache.set_at(s("a"), text("a"), plain(), 0).unwrap();
    cache.set_at(s("b"), text("b"), plain(), 0).unwrap();
    cache.set_at(s("a"), text("a2"), with_parent("b"), 0).unwrap();
    let before_len = cache.len();
    let before_mem = cache.memory_usage();
    let before_sets = cache.stats().sets;
    assert_eq!(
        cache.set_at(s("b"), text("b2"), with_parent("a"), 0),
        Err(CacheError::DependencyCycle(s("b"), s("a")))
    );
    assert_eq!(cache.parent("b"), None);
    assert_eq!(cache.get_at("b", 0), Some(text("b")));
    assert_eq!(cache.len(), before_len);
    assert_eq!(cache.memory_usage(), before_mem);
    assert_eq!(cache.stats().sets, before_sets);
}

#[test]
fn set_parent_links_and_checks() {
    let mut cache = Cache::new(Config::default());
    cache.set_at(s("a"), text("1"), plain(), 0).unwrap();
    cache.set_at(s("b"), text("2"), plain(), 0).unwrap();
    cache.set_at(s("c"), text("3"), plain(), 0).unwrap();
    assert_eq!(cache.set_parent("a", s("b")), Ok(1));
    assert_eq!(cache.set_parent("b", s("c")), Ok(1));
    assert_eq!(cache.parent("a"), Some(s("b")));
    assert_eq!(cache.set_parent("absent", s("c")), Ok(0));
    assert_eq!(
        cache.set_parent("c", s("a")),
        Err(CacheError::DependencyCycle(s("c"), s("a")))
    );
    assert_eq!(cache.parent("c"), None);
    assert_eq!(cache.parent("absent"), None);
    // the value and the bytes are untouched by a new parent
    assert_eq!(cache.get_at("a", 0), Some(text("1")));
    assert_eq!(cache.memory_usage(), 168 + 3 * (1 + 160 + 1));
}

#[test]
fn scenario_dependency_chain() {
    let mut cache = Cache::new(Config::default());
    cache.set_at(s("d"), text("d"), plain(), 0).unwrap();
    cache.set_at(s("c"), text("c"), with_parent("d"), 0).unwrap();
    cache.set_at(s("b"), text("b"), with_parent("c"), 0).unwrap();
    cache.set_at(s("a"), text("a"), with_parent("b"), 0).unwrap();
    assert!(cache.exists_at("a", 0));
    assert!(cache.delete("d"));
    assert!(!cache.exists_at("a", 0));
    assert_eq!(cache.get_at("a", 0), None);
    // the read has removed a, the others are still stored
    assert_eq!(cache.len(), 2);
}

#[test]
fn parent_invalidation() {
    let mut cache = Cache::new(Config::default());
    cache.set_at(s("p"), text("1"), plain(), 0).unwrap();
    cache.set_at(s("c"), text("2"), with_parent("p"), 0).unwrap();
    assert_eq!(cache.del(&["p"]), 1);
    assert!(!cache.exists_at("c", 0));
    assert_eq!(cache.get_at("c", 0), None);
}

#[test]
fn an_expired_parent_invalidates_its_children() {
    let mut cache = Cache::new(Config::default());
    cache.set_at(s("p"), text("1"), with_ttl(100), 0).unwrap();
    cache.set_at(s("c"), text("2"), with_parent("p"), 0).unwrap();
    assert!(cache.exists_at("c", 99));
    assert!(!cache.exists_at("c", 100));
}

#[test]
fn scenario_memory_limit() {
    let mut cache = Cache::new(Config {
        max_memory: Some(512),
        ..Default::default()
    });
    assert_eq!(cache.set_at(s("small"), text("ok"), plain(), 0), Ok(true));
    assert_eq!(
        cache.set_at(s("large"), Value::String("x".repeat(200)), plain(), 0),
        Err(CacheError::MemoryLimitExceeded)
    );
    assert_eq!(cache.len(), 1);
    assert_eq!(cache.memory_usage(), 168 + 5 + 160 + 2);
    assert_eq!(cache.stats().sets, 1);
}

#[test]
fn memory_limit_is_exact() {
    // 168 for the cache and 1 + 160 + 3 for the entry
    let mut cache = Cache::new(Config {
        max_memory: Some(332),
        ..Default::default()
    });
    assert_eq!(cache.set_at(s("k"), text("abc"), plain(), 0), Ok(true));
    let mut cache = Cache::new(Config {
        max_memory: Some(331),
        ..Default::default()
    });
    assert_eq!(
        cache.set_at(s("k"), text("abc"), plain(), 0),
        Err(CacheError::MemoryLimitExceeded)
    );
}

#[test]
fn memory_limit_counts_a_replacement_by_its_difference() {
    let mut cache = Cache::new(Config {
        max_memory: Some(168 + 1 + 160 + 10),
        ..Default::default()
    });
    assert_eq!(cache.set_at(s("k"), text("0123456789"), plain(), 0), Ok(true));
    assert_eq!(cache.set_at(s("k"), text("9876543210"), plain(), 0), Ok(true));
    assert_eq!(
        cache.set_at(s("k"), text("0123456789a"), plain(), 0),
        Err(CacheError::MemoryLimitExceeded)
    );
    assert_eq!(cache.get_at("k", 0), Some(text("9876543210")));
}

#[test]
fn key_limit_allows_overwrites() {
    let mut cache = Cache::new(Config {
        max_keys: Some(2),
        ..Default::default()
    });
    assert_eq!(cache.set_at(s("a"), text("1"), plain(), 0), Ok(true));
    assert_eq!(cache.set_at(s("b"), text("2"), plain(), 0), Ok(true));
    assert_eq!(
        cache.set_at(s("c"), text("3"), plain(), 0),
        Err(CacheError::KeyLimitExceeded)
    );
    assert_eq!(cache.set_at(s("a"), text("4"), plain(), 0), Ok(true));
    assert_eq!(cache.len(), 2);
    assert_eq!(cache.stats().sets, 3);
}

#[test]
fn memory_is_checked_before_keys() {
    let mut cache = Cache::new(Config {
        max_keys: Some(0),
        max_memory: Some(0),
        ..Default::default()
    });
    assert_eq!(
        cache.set_at(s("a"), text("1"), plain(), 0),
        Err(CacheError::MemoryLimitExceeded)
    );
}

#[test]
fn ttl_reports_whole_seconds() {
    let mut cache = Cache::new(Config::default());
    assert_eq!(cache.ttl_at("k", 0), -2);
    cache.set_at(s("k"), text("v"), plain(), 0).unwrap();
    assert_eq!(cache.ttl_at("k", 0), -1);
    cache
        .set_at(s("t"), text("v"), with_ttl(2 * SECOND + SECOND / 2), 0)
        .unwrap();
    assert_eq!(cache.ttl_at("t", 0), 2);
    assert_eq!(cache.ttl_at("t", SECOND / 2), 2);
    assert_eq!(cache.ttl_at("t", SECOND / 2 + 1), 1);
    assert_eq!(cache.ttl_at("t", 2 * SECOND), 0);
    assert_eq!(cache.ttl_at("t", 2 * SECOND + SECOND / 2), -2);
    let shown = cache.ttl("t");
    assert!(shown == -2 || (0..=2).contains(&shown));
}

#[test]
fn expire_installs_a_fixed_expiry() {
    let mut cache = Cache::new(Config::default());
    assert_eq!(cache.expire_at("k", 5, 0), 0);
    cache.set_at(s("k"), text("v"), plain(), 0).unwrap();
    assert_eq!(cache.expire_at("k", 5, 100), 1);
    assert_eq!(cache.ttl_at("k", 100), 5);
    assert_eq!(cache.ttl_at("k", 100 + 5 * SECOND - 1), 0);
    assert_eq!(cache.ttl_at("k", 100 + 5 * SECOND), -2);
    // a read does not move a fixed expiry
    assert_eq!(cache.get_at("k", 100 + 4 * SECOND), Some(text("v")));
    assert_eq!(cache.ttl_at("k", 100 + 5 * SECOND), -2);
    assert_eq!(cache.get_at("k", 100 + 5 * SECOND), None);
}

#[test]
fn expire_of_zero_seconds_expires_at_once() {
    let mut cache = Cache::new(Config::default());
    cache.set_at(s("k"), text("v"), plain(), 0).unwrap();
    assert_eq!(cache.expire_at("k", 0, 7), 1);
    assert_eq!(cache.ttl_at("k", 7), -2);
    assert!(!cache.exists_at("k", 7));
}

#[test]
fn expire_of_the_largest_span_never_comes() {
    let mut cache = Cache::new(Config::default());
    cache.set_at(s("k"), text("v"), plain(), 0).unwrap();
    assert_eq!(cache.expire_at("k", u64::MAX, u128::MAX - 5), 1);
    assert!(cache.exists_at("k", u128::MAX - 1));
}

#[test]
fn expire_with_the_clock() {
    let mut cache = Cache::new(Config::default());
    cache.set(s("k"), text("v"), plain()).unwrap();
    assert_eq!(cache.expire("k", 100), 1);
    let shown = cache.ttl("k");
    assert!((0..=100).contains(&shown));
    assert_eq!(cache.get("k"), Some(text("v")));
    assert_eq!(cache.expire("absent", 100), 0);
}

#[test]
fn persist_clears_the_expiry() {
    let mut cache = Cache::new(Config::default());
    assert_eq!(cache.persist("k"), 0);
    cache.set_at(s("k"), text("v"), with_ttl(10), 0).unwrap();
    assert_eq!(cache.persist("k"), 1);
    assert_eq!(cache.ttl_at("k", 0), -1);
    assert_eq!(cache.get_at("k", 1_000), Some(text("v")));
}

#[test]
fn del_counts_what_it_removed() {
    let mut cache = Cache::new(Config::default());
    cache.set_at(s("a"), text("1"), plain(), 0).unwrap();
    cache.set_at(s("b"), text("22"), plain(), 0).unwrap();
    cache.set_at(s("c"), text("333"), plain(), 0).unwrap();
    assert_eq!(cache.del(&["a", "zz", "a", "c"]), 2);
    assert_eq!(cache.len(), 1);
    assert_eq!(cache.stats().deletes, 2);
    assert_eq!(cache.memory_usage(), 168 + 1 + 160 + 2);
    assert_eq!(cache.del(&[]), 0);
    assert_eq!(cache.stats().deletes, 2);
}

#[test]
fn delete_is_idempotent() {
    let mut cache = Cache::new(Config::default());
    cache.set_at(s("k"), text("v"), plain(), 0).unwrap();
    cache.set_at(s("other"), text("v"), plain(), 0).unwrap();
    assert_eq!(cache.del(&["k"]), 1);
    let len = cache.len();
    let mem = cache.memory_usage();
    let deletes = cache.stats().deletes;
    assert_eq!(cache.del(&["k"]), 0);
    assert_eq!(cache.len(), len);
    assert_eq!(cache.memory_usage(), mem);
    assert_eq!(cache.stats().deletes, deletes);
    assert!(!cache.delete("k"));
}

#[test]
fn the_gauge_wraps_below_zero() {
    let mut cache = Cache::new(Config::default());
    cache.flush_all();
    cache.set_at(s("a"), text("1"), plain(), 0).unwrap();
    cache.set_at(s("p"), text("1"), plain(), 0).unwrap();
    // a parent adds to what the entry is charged for when it leaves
    cache.set_parent("a", s("p")).unwrap();
    assert_eq!(cache.del(&["a", "p"]), 2);
    assert_eq!(cache.memory_usage(), 0usize.wrapping_sub(1));
}

#[test]
fn flush_resets_data_not_counters() {
    let mut cache = Cache::new(Config::default());
    cache.set_at(s("a"), text("1"), plain(), 0).unwrap();
    cache.set_at(s("b"), text("2"), plain(), 0).unwrap();
    cache.get_at("a", 0);
    cache.get_at("zz", 0);
    cache.delete("b");
    let before = *cache.stats();
    cache.flush_all();
    assert_eq!(cache.len(), 0);
    assert!(cache.is_empty());
    assert_eq!(cache.memory_usage(), 0);
    assert_eq!(cache.stats().hits, before.hits);
    assert_eq!(cache.stats().misses, before.misses);
    assert_eq!(cache.stats().sets, before.sets);
    assert_eq!(cache.stats().deletes, before.deletes);
    assert_eq!(cache.get_at("a", 0), None);
}

#[test]
fn keys_by_pattern() {
    let mut cache = Cache::new(Config::default());
    for k in ["pre", "pre_1", "pre_2", "other", "*"] {
        cache.set_at(s(k), text("v"), plain(), 0).unwrap();
    }
    assert_eq!(
        sorted(cache.keys("*", usize::MAX)),
        vec![s("*"), s("other"), s("pre"), s("pre_1"), s("pre_2")]
    );
    assert_eq!(
        sorted(cache.keys("pre*", 10)),
        vec![s("pre"), s("pre_1"), s("pre_2")]
    );
    assert_eq!(sorted(cache.keys("pre_1", 10)), vec![s("pre_1")]);
    assert_eq!(cache.keys("nothing*", 10), Vec::<String>::new());
    assert_eq!(cache.keys("pr", 10), Vec::<String>::new());
    assert_eq!(cache.keys("*", 0), Vec::<String>::new());
}

#[test]
fn keys_stop_at_the_limit() {
    let mut cache = Cache::new(Config::default());
    for i in 0..50 {
        cache.set_at(format!("k{}", i), text("v"), plain(), 0).unwrap();
    }
    let some = cache.keys("k*", 7);
    assert_eq!(some.len(), 7);
    let mut unique = some.clone();
    unique.sort();
    unique.dedup();
    assert_eq!(unique.len(), 7);
    assert!(some.iter().all(|k| k.starts_with('k')));
    assert_eq!(cache.keys("k*", 50).len(), 50);
    assert_eq!(cache.keys("k*", 51).len(), 50);
    assert_eq!(cache.keys("k1*", 100).len(), 11);
}

#[test]
fn keys_do_not_look_at_validity() {
    let mut cache = Cache::new(Config::default());
    cache.set_at(s("t"), text("v"), with_ttl(1), 0).unwrap();
    assert_eq!(cache.keys("*", 10), vec![s("t")]);
}

#[test]
fn children_are_the_direct_ones() {
    let mut cache = Cache::new(Config::default());
    cache.set_at(s("root"), text("v"), plain(), 0).unwrap();
    cache.set_at(s("c1"), text("v"), with_parent("root"), 0).unwrap();
    cache.set_at(s("c2"), text("v"), with_parent("root"), 0).unwrap();
    cache.set_at(s("g1"), text("v"), with_parent("c1"), 0).unwrap();
    assert_eq!(sorted(cache.children("root")), vec![s("c1"), s("c2")]);
    assert_eq!(cache.children("c1"), vec![s("g1")]);
    assert_eq!(cache.children("g1"), Vec::<String>::new());
    assert_eq!(cache.children("absent"), Vec::<String>::new());
}

#[test]
fn children_recursive_goes_level_by_level() {
    let mut cache = Cache::new(Config::default());
    cache.set_at(s("root"), text("v"), plain(), 0).unwrap();
    cache.set_at(s("c1"), text("v"), with_parent("root"), 0).unwrap();
    cache.set_at(s("c2"), text("v"), with_parent("root"), 0).unwrap();
    cache.set_at(s("g1"), text("v"), with_parent("c1"), 0).unwrap();
    cache.set_at(s("gg1"), text("v"), with_parent("g1"), 0).unwrap();
    cache.set_at(s("loner"), text("v"), plain(), 0).unwrap();

    assert_eq!(cache.children_recursive("root", 0), vec![]);

    let mut one = cache.children_recursive("root", 1);
    one.sort();
    assert_eq!(one, vec![(s("c1"), 1), (s("c2"), 1)]);

    let two = cache.children_recursive("root", 2);
    assert_eq!(two.len(), 3);
    assert!(two[..2].iter().all(|p| p.1 == 1));
    assert_eq!(two[2], (s("g1"), 2));

    let all = cache.children_recursive("root", usize::MAX);
    assert_eq!(all.len(), 4);
    assert_eq!(all[3], (s("gg1"), 3));
    let depths: Vec<u64> = all.iter().map(|p| p.1).collect();
    assert_eq!(depths, vec![1, 1, 2, 3]);

    assert_eq!(cache.children_recursive("c1", 5), vec![(s("g1"), 1), (s("gg1"), 2)]);
    assert_eq!(cache.children_recursive("loner", 5), vec![]);
}

#[test]
fn children_of_a_key_that_is_not_stored() {
    let mut cache = Cache::new(Config::default());
    cache.set_at(s("p"), text("v"), plain(), 0).unwrap();
    cache.set_at(s("c"), text("v"), with_parent("p"), 0).unwrap();
    cache.delete("p");
    assert_eq!(cache.children_recursive("p", 3), vec![(s("c"), 1)]);
}

#[test]
fn sample_window_formula() {
    assert_eq!(sample_window_of(0, 0), (0, 0));
    assert_eq!(sample_window_of(5, 19), (0, 19));
    assert_eq!(sample_window_of(0, 20), (0, 20));
    assert_eq!(sample_window_of(9, 20), (0, 20));
    // 21 mod 6
    assert_eq!(sample_window_of(3, 25), (3, 20));
    // 7 mod 2
    assert_eq!(sample_window_of(1, 21), (1, 20));
    assert_eq!(
        sample_window_of(usize::MAX, 1_000_020),
        (((usize::MAX as u128 * 7) % 1_000_001) as usize, 20)
    );
}

#[test]
fn purge_deletes_only_what_has_expired() {
    let mut cache = Cache::new(Config::default());
    cache.set_at(s("old"), text("v"), with_ttl(10), 0).unwrap();
    cache.set_at(s("young"), text("v"), with_ttl(1_000), 0).unwrap();
    cache.set_at(s("forever"), text("v"), plain(), 0).unwrap();
    let sampled = vec![s("old"), s("young"), s("forever"), s("absent"), s("old")];
    assert_eq!(cache.purge(&sampled, 10), 1);
    assert_eq!(sorted(cache.keys("*", 10)), vec![s("forever"), s("young")]);
    assert_eq!(cache.stats().deletes, 1);
    assert_eq!(cache.purge(&sampled, 10), 0);
}

#[test]
fn purge_leaves_children_of_expired_parents() {
    let mut cache = Cache::new(Config::default());
    cache.set_at(s("p"), text("v"), with_ttl(10), 0).unwrap();
    cache.set_at(s("c"), text("v"), with_parent("p"), 0).unwrap();
    assert_eq!(cache.purge(&vec![s("p"), s("c")], 10), 1);
    assert_eq!(cache.keys("*", 10), vec![s("c")]);
}

#[test]
fn scenario_sampled_cleanup() {
    let mut cache = Cache::new(Config::default());
    let shards = cache.shard_count();
    assert!(shards > 1);
    for i in 0..5 * shards {
        cache
            .set_at(format!("exp_{}", i), text("v"), with_ttl(1_000_000), 0)
            .unwrap();
    }
    for i in 0..5 {
        cache.set_at(format!("keep_{}", i), text("v"), plain(), 0).unwrap();
    }
    assert_eq!(cache.len(), 5 * shards + 5);
    // before the expiry nothing is removed
    assert_eq!(cache.cleanup_expired_at(999_999), 0);
    let mut removed = 0;
    for _ in 0..5 * shards {
        removed += cache.cleanup_expired_at(10_000_000);
    }
    assert_eq!(removed, 5 * shards);
    assert_eq!(cache.len(), 5);
    assert_eq!(cache.stats().deletes as usize, 5 * shards);
    for i in 0..5 {
        assert!(cache.get_at(&format!("keep_{}", i), 10_000_000).is_some());
    }
}

#[test]
fn cleanup_samples_a_window_of_a_large_shard() {
    let mut cache = Cache::new(Config::default());
    let shards = cache.shard_count();
    let total = 60 * shards;
    for i in 0..total {
        cache.set_at(format!("k{}", i), text("v"), with_ttl(1), 0).unwrap();
    }
    let mut rounds = 0;
    while cache.len() > 0 && rounds < 40 * shards {
        let removed = cache.cleanup_expired_at(5);
        assert!(removed <= 20);
        rounds += 1;
    }
    assert_eq!(cache.len(), 0);
    assert_eq!(cache.cleanup_expired_at(5), 0);
    assert_eq!(cache.memory_usage(), 168);
}

#[test]
fn the_clock_does_not_go_back() {
    let mut cache = Cache::new(Config::default());
    let a = cache.now();
    let b = cache.now();
    let c = cache.now();
    assert!(a <= b && b <= c);
}

#[test]
fn sweeps_take_the_shards_in_turn() {
    let mut cache = Cache::new(Config::default());
    let shards = cache.shard_count();
    cache.set_at(s("only"), text("v"), with_ttl(1), 0).unwrap();
    // the key lies in one shard: of as many sweeps as there are shards,
    // the one whose turn that shard is removes it
    let mut removing = 0;
    for _ in 0..shards {
        let removed = cache.cleanup_expired_at(5);
        assert!(removed <= 1);
        removing += removed;
    }
    assert_eq!(removing, 1);
    assert_eq!(cache.len(), 0);
}

#[test]
fn a_sweep_looks_at_one_shard_only() {
    let mut cache = Cache::new(Config::default());
    let shards = cache.shard_count();
    for i in 0..2 * shards {
        cache.set_at(format!("k{}", i), text("v"), with_ttl(1), 0).unwrap();
    }
    let before = cache.len();
    let removed = cache.cleanup_expired_at(5);
    assert_eq!(cache.len(), before - removed);
    // the keys are spread over the shards: one sweep has not taken them all
    assert!(removed < before);
    // the same store swept by the next shards loses the rest
    for _ in 1..shards {
        cache.cleanup_expired_at(5);
    }
    assert_eq!(cache.len(), 0);
}
