use clock_cache::ClockCache;
use std::fmt::Debug;

fn assert_opt_eq<V: PartialEq + Debug>(opt: Option<&V>, v: V) {
    assert!(opt.is_some());
    assert_eq!(opt.unwrap(), &v);
}

#[test]
fn test_put_and_get() {
    let mut cache: ClockCache<&str> = ClockCache::new(2);

    cache.put("apple".to_string(), "red");
    cache.put("banana".to_string(), "yellow");

    assert_eq!(cache.cap(), 2);
    assert_eq!(cache.len(), 2);
    assert_opt_eq(cache.get("apple"), "red");
    assert_opt_eq(cache.get("banana"), "yellow");
}

#[test]
fn test_put_update() {
    let mut cache: ClockCache<&str> = ClockCache::new(1);

    cache.put("apple".to_string(), "red");
    cache.put("apple".to_string(), "green");

    assert_eq!(cache.len(), 1);
    assert_opt_eq(cache.get("apple"), "green");
}

#[test]
fn test_peek() {
    let mut cache: ClockCache<&str> = ClockCache::new(2);

    cache.put("apple".to_string(), "red");
    cache.put("banana".to_string(), "yellow");

    assert_opt_eq(cache.peek("banana"), "yellow");
    assert_opt_eq(cache.peek("apple"), "red");

    cache.put("pear".to_string(), "green");

    assert!(cache.peek("apple").is_none());
    assert_opt_eq(cache.peek("banana"), "yellow");
    assert_opt_eq(cache.peek("pear"), "green");
}

#[test]
fn test_contains() {
    let mut cache: ClockCache<&str> = ClockCache::new(2);

    cache.put("apple".to_string(), "red");
    cache.put("banana".to_string(), "yellow");
    cache.put("pear".to_string(), "green");

    assert!(!cache.contains("apple"));
    assert!(cache.contains("banana"));
    assert!(cache.contains("pear"));
}

#[test]
fn test_pop() {
    let mut cache: ClockCache<&str> = ClockCache::new(2);

    cache.put("apple".to_string(), "red");
    cache.put("banana".to_string(), "yellow");

    assert!(cache.pop("apple"));
    assert!(cache.pop("banana"));
    assert!(!cache.pop("apple"));
    assert!(!cache.pop("apple"));
    assert_eq!(cache.len(), 0);
}

#[test]
fn capacity_bound_over_many_puts() {
    let mut cache: ClockCache<usize> = ClockCache::new(3);
    for i in 0..20usize {
        cache.put(format!("key{}", i), i);
        assert!(cache.len() <= cache.cap());
    }
    assert_eq!(cache.len(), 3);
    assert_eq!(cache.cap(), 3);
}

#[test]
fn round_trip_get_and_peek() {
    let mut cache: ClockCache<&str> = ClockCache::new(4);
    cache.put("k".to_string(), "v");
    assert_opt_eq(cache.peek("k"), "v");
    assert_opt_eq(cache.get("k"), "v");
}

#[test]
fn promotion_protects_from_eviction() {
    let mut cache: ClockCache<u32> = ClockCache::new(2);
    cache.put("first".to_string(), 1);
    cache.put("second".to_string(), 2);

    // Promote "first"; "second" keeps a clear usage bit.
    assert_opt_eq(cache.get("first"), 1);

    cache.put("third".to_string(), 3);

    assert!(cache.contains("first"));
    assert!(!cache.contains("second"));
    assert!(cache.contains("third"));
}

#[test]
fn peek_is_side_effect_free() {
    // Without any access, inserting into the full cache evicts "first";
    // peeking it any number of times must not change that.
    let mut cache: ClockCache<u32> = ClockCache::new(2);
    cache.put("first".to_string(), 1);
    cache.put("second".to_string(), 2);
    for _ in 0..10 {
        assert_opt_eq(cache.peek("first"), 1);
    }
    cache.put("third".to_string(), 3);
    assert!(!cache.contains("first"));
    assert!(cache.contains("second"));
    assert!(cache.contains("third"));
}

#[test]
fn pop_then_miss() {
    let mut cache: ClockCache<u32> = ClockCache::new(2);
    cache.put("k".to_string(), 7);
    assert!(cache.pop("k"));
    assert!(cache.get("k").is_none());
    assert!(!cache.pop("k"));
}

#[test]
fn scenario_capacity_two() {
    let mut cache: ClockCache<&str> = ClockCache::new(2);
    cache.put("apple".to_string(), "red");
    cache.put("banana".to_string(), "yellow");

    assert_opt_eq(cache.get("apple"), "red");
    assert_opt_eq(cache.get("banana"), "yellow");

    cache.put("pear".to_string(), "green");

    assert_opt_eq(cache.get("pear"), "green");
    assert_opt_eq(cache.get("banana"), "yellow");
    assert!(cache.get("apple").is_none());
}

#[test]
fn scenario_capacity_one() {
    let mut cache: ClockCache<&str> = ClockCache::new(1);
    cache.put("apple".to_string(), "red");
    cache.put("apple".to_string(), "green");
    assert_eq!(cache.len(), 1);
    assert_opt_eq(cache.get("apple"), "green");
}

#[test]
fn full_revolution_when_every_bit_is_set() {
    // With one slot whose bit is set, the scan clears the whole ring and
    // comes back to the hand itself.
    let mut cache: ClockCache<u32> = ClockCache::new(1);
    cache.put("a".to_string(), 1);
    assert_opt_eq(cache.get("a"), 1);
    cache.put("b".to_string(), 2);
    assert!(!cache.contains("a"));
    assert_opt_eq(cache.get("b"), 2);
    assert_eq!(cache.len(), 1);
}

#[test]
fn popped_slot_lingers_until_overwritten() {
    // pop removes the key from the index only; the slot stays physically
    // occupied, so the next full-ring insertion evicts the orphan.
    let mut cache: ClockCache<u32> = ClockCache::new(2);
    cache.put("a".to_string(), 1);
    cache.put("b".to_string(), 2);
    assert!(cache.pop("a"));
    assert_eq!(cache.len(), 1);

    cache.put("c".to_string(), 3);
    assert_eq!(cache.len(), 2);
    assert!(cache.get("a").is_none());
    assert_opt_eq(cache.get("b"), 2);
    assert_opt_eq(cache.get("c"), 3);
}

#[test]
fn update_does_not_promote() {
    // A value refresh through put is not a recent access: the slot's usage
    // bit stays clear and the key is still the eviction victim.
    let mut cache: ClockCache<u32> = ClockCache::new(2);
    cache.put("a".to_string(), 1);
    cache.put("b".to_string(), 2);
    cache.put("a".to_string(), 10);
    cache.put("c".to_string(), 3);
    assert!(!cache.contains("a"));
    assert_opt_eq(cache.get("b"), 2);
    assert_opt_eq(cache.get("c"), 3);
}
