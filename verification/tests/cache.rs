use asset_pipeline::cache::{Cache, Decision, Outcome};

#[test]
fn one_load_for_many_callers() {
    let mut cache = Cache::new();
    let mut loads = 0;
    let mut waiting = 0;
    for caller in 0..8u64 {
        match cache.get(42, caller) {
            Decision::Load => loads += 1,
            Decision::Wait => waiting += 1,
            Decision::Ready(_) => panic!("nothing was loaded yet"),
        }
    }
    assert_eq!(loads, 1);
    assert_eq!(waiting, 7);
    assert!(cache.is_loading(42));
    let released = cache.complete(42, Outcome::Value(7));
    assert_eq!(released, vec![0, 1, 2, 3, 4, 5, 6, 7]);
    assert_eq!(cache.peek(42), Some(Outcome::Value(7)));
    assert_eq!(cache.get(42, 99), Decision::Ready(Outcome::Value(7)));
    assert!(!cache.is_loading(42));
}

#[test]
fn the_first_caller_loads() {
    let mut cache = Cache::new();
    assert_eq!(cache.get(1, 10), Decision::Load);
    assert_eq!(cache.get(1, 11), Decision::Wait);
    assert_eq!(cache.get(2, 12), Decision::Load);
}

#[test]
fn a_failed_load_is_recorded_for_everyone() {
    let mut cache = Cache::new();
    assert_eq!(cache.get(5, 1), Decision::Load);
    assert_eq!(cache.get(5, 2), Decision::Wait);
    assert_eq!(cache.complete(5, Outcome::Error(404)), vec![1, 2]);
    assert_eq!(cache.get(5, 3), Decision::Ready(Outcome::Error(404)));
    assert_eq!(cache.peek(5), Some(Outcome::Error(404)));
}

#[test]
fn a_recorded_outcome_is_never_replaced() {
    let mut cache = Cache::new();
    cache.get(5, 1);
    cache.complete(5, Outcome::Value(1));
    assert_eq!(cache.complete(5, Outcome::Value(2)), Vec::<u64>::new());
    assert_eq!(cache.peek(5), Some(Outcome::Value(1)));
}

#[test]
fn completing_an_unknown_key_changes_nothing() {
    let mut cache = Cache::new();
    assert_eq!(cache.complete(9, Outcome::Value(1)), Vec::<u64>::new());
    assert_eq!(cache.peek(9), None);
    assert_eq!(cache.get(9, 1), Decision::Load);
}

#[test]
fn eviction_lets_the_next_caller_load_again() {
    let mut cache = Cache::new();
    cache.get(5, 1);
    cache.complete(5, Outcome::Error(1));
    assert!(cache.evict(5));
    assert_eq!(cache.peek(5), None);
    assert_eq!(cache.get(5, 2), Decision::Load);
}

#[test]
fn a_load_in_flight_is_not_evicted() {
    let mut cache = Cache::new();
    cache.get(5, 1);
    assert!(!cache.evict(5));
    assert!(cache.is_loading(5));
    assert_eq!(cache.get(5, 2), Decision::Wait);
    assert_eq!(cache.complete(5, Outcome::Value(3)), vec![1, 2]);
    assert!(!cache.evict(6));
}

#[test]
fn keys_do_not_disturb_each_other() {
    let mut cache = Cache::new();
    cache.get(1, 10);
    cache.get(2, 20);
    cache.get(1, 11);
    assert_eq!(cache.complete(2, Outcome::Value(2)), vec![20]);
    assert!(cache.is_loading(1));
    assert_eq!(cache.peek(1), None);
    assert_eq!(cache.complete(1, Outcome::Value(1)), vec![10, 11]);
    assert_eq!(cache.peek(2), Some(Outcome::Value(2)));
}
