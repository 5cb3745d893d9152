use dashdotcache::validity::is_lapsed;
use dashdotcache::entry::{Entry, ENTRY_OVERHEAD};
use dashdotcache::ttl::Ttl;
use dashdotcache::value::Value;
use dashmap::DashMap;

#[test]
fn ttl_new_is_fixed() {
    let t = Ttl::new(500, 1_000);
    assert_eq!(t.expires_at, 1_500);
    assert_eq!(t.duration, 500);
    assert!(!t.sliding);
}

#[test]
fn ttl_sliding_resets_on_reset() {
    let mut t = Ttl::sliding(500, 1_000);
    assert!(t.sliding);
    assert_eq!(t.expires_at, 1_500);
    t.reset(1_200);
    assert_eq!(t.expires_at, 1_700);
    assert_eq!(t.duration, 500);
}

#[test]
fn ttl_fixed_ignores_reset() {
    let mut t = Ttl::new(500, 1_000);
    t.reset(1_200);
    assert_eq!(t, Ttl::new(500, 1_000));
}

#[test]
fn ttl_expires_at_its_instant() {
    let t = Ttl::new(500, 1_000);
    assert!(!t.is_expired(1_000));
    assert!(!t.is_expired(1_499));
    assert!(t.is_expired(1_500));
    assert!(t.is_expired(9_000));
}

#[test]
fn ttl_remaining_is_the_residual() {
    let t = Ttl::new(500, 1_000);
    assert_eq!(t.remaining(1_000), Some(500));
    assert_eq!(t.remaining(1_499), Some(1));
    assert_eq!(t.remaining(1_500), None);
    assert_eq!(t.remaining(2_000), None);
}

#[test]
fn ttl_deadline_stops_at_the_last_instant() {
    let t = Ttl::new(u128::MAX, 10);
    assert_eq!(t.expires_at, u128::MAX);
    assert!(!t.is_expired(u128::MAX - 1));
}

#[test]
fn ttl_of_zero_is_expired_at_once() {
    let t = Ttl::new(0, 77);
    assert!(t.is_expired(77));
    assert_eq!(t.remaining(77), None);
}

#[test]
fn lapsed_without_ttl_is_never() {
    assert!(!is_lapsed(&None, u128::MAX));
    assert!(is_lapsed(&Some(Ttl::new(1, 0)), 1));
}

#[test]
fn entry_constructors() {
    let e = Entry::new(Value::Integer(1), 9);
    assert_eq!(e.value, Value::Integer(1));
    assert!(e.ttl.is_none());
    assert!(e.parent.is_none());
    assert_eq!(e.access_count, 0);
    assert_eq!(e.created_at, 9);
    assert_eq!(e.last_accessed, 9);

    let t = Ttl::new(5, 9);
    let e = Entry::with_ttl(Value::Integer(1), t, 9);
    assert_eq!(e.ttl, Some(t));
    assert!(e.parent.is_none());

    let e = Entry::with_parent(Value::Integer(1), "p".to_string(), 9);
    assert!(e.ttl.is_none());
    assert_eq!(e.parent, Some("p".to_string()));
}

#[test]
fn entry_mark_accessed_counts_and_slides() {
    let mut e = Entry::with_ttl(Value::Integer(1), Ttl::sliding(100, 0), 0);
    e.mark_accessed(40);
    assert_eq!(e.access_count, 1);
    assert_eq!(e.last_accessed, 40);
    assert_eq!(e.ttl.unwrap().expires_at, 140);
    e.mark_accessed(30);
    assert_eq!(e.access_count, 2);
    // a read is never recorded before an earlier one
    assert_eq!(e.last_accessed, 40);
    assert!(e.created_at <= e.last_accessed);
}

#[test]
fn entry_access_count_stops_at_the_largest() {
    let mut e = Entry::new(Value::Integer(1), 0);
    e.access_count = u64::MAX;
    e.mark_accessed(1);
    assert_eq!(e.access_count, u64::MAX);
}

#[test]
fn entry_memory_usage_adds_value_and_parent() {
    assert_eq!(ENTRY_OVERHEAD, 160);
    let e = Entry::new(Value::String("ok".to_string()), 0);
    assert_eq!(e.memory_usage(), 162);
    let e = Entry::with_parent(Value::String("ok".to_string()), "parent".to_string(), 0);
    assert_eq!(e.memory_usage(), 168);
    assert_eq!(e.charge_under("key"), 171);
}

#[test]
fn entry_validity_follows_the_parent_chain() {
    let store: DashMap<String, Entry> = DashMap::new();
    store.insert("root".to_string(), Entry::with_ttl(Value::Integer(0), Ttl::new(100, 0), 0));
    store.insert(
        "mid".to_string(),
        Entry::with_parent(Value::Integer(1), "root".to_string(), 0),
    );
    let leaf = Entry::with_parent(Value::Integer(2), "mid".to_string(), 0);
    assert!(leaf.is_valid(&store, 50));
    // the root has expired, so everything below it is invalid
    assert!(!leaf.is_valid(&store, 100));
    let orphan = Entry::with_parent(Value::Integer(2), "gone".to_string(), 0);
    assert!(!orphan.is_valid(&store, 0));
    let alone = Entry::new(Value::Integer(3), 0);
    assert!(alone.is_valid(&store, u128::MAX));
    let dated = Entry::with_ttl(Value::Integer(3), Ttl::new(10, 0), 0);
    assert!(dated.is_valid(&store, 9));
    assert!(!dated.is_valid(&store, 10));
}

#[test]
fn entry_in_a_loop_of_parents_is_invalid() {
    let store: DashMap<String, Entry> = DashMap::new();
    store.insert("a".to_string(), Entry::with_parent(Value::Integer(1), "b".to_string(), 0));
    store.insert("b".to_string(), Entry::with_parent(Value::Integer(1), "a".to_string(), 0));
    let e = Entry::with_parent(Value::Integer(1), "a".to_string(), 0);
    assert!(!e.is_valid(&store, 0));
}
