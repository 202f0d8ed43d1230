use idempotent_proxy::dispatch::CacheError;
use idempotent_proxy::memory::{poll_step, MemoryCacher, PollStep};

fn polling_get(mc: &MemoryCacher, key: &str, mut counter: u64, now: u64) -> Result<Vec<u8>, CacheError> {
    loop {
        match poll_step(mc.get_at(key, now), counter) {
            PollStep::Ready(v) => return Ok(v),
            PollStep::NotObtained => return Err(CacheError::NotObtained),
            PollStep::Timeout => return Err(CacheError::Timeout),
            PollStep::Wait { remaining } => counter = remaining,
        }
    }
}

#[test]
fn memory_cacher() {
    let mut mc = MemoryCacher::new();
    let t = 1_000u64;

    assert!(mc.obtain_at("key1", 100, t));
    assert!(!mc.obtain_at("key1", 100, t));
    assert!(polling_get(&mc, "key1", 2, t).is_err());
    assert!(mc.set_at("key", vec![1, 2, 3, 4], 100, t).is_err());
    assert!(mc.set_at("key1", vec![1, 2, 3, 4], 100, t).is_ok());
    assert!(!mc.obtain_at("key1", 100, t));
    assert_eq!(polling_get(&mc, "key1", 2, t).unwrap(), vec![1, 2, 3, 4]);
    assert_eq!(polling_get(&mc, "key1", 2, t).unwrap(), vec![1, 2, 3, 4]);

    mc.del("key");
    mc.del("key1");
    assert!(polling_get(&mc, "key1", 2, t).is_err());
    assert!(mc.set_at("key1", vec![1, 2, 3, 4], 100, t).is_err());
    assert!(mc.obtain_at("key1", 100, t));
    assert!(mc.set_at("key1", vec![1, 2, 3, 4], 100, t).is_ok());
    assert_eq!(polling_get(&mc, "key1", 2, t).unwrap(), vec![1, 2, 3, 4]);

    // 200 ms later the entry has expired: it is invisible
    let t = t + 200;
    assert!(matches!(polling_get(&mc, "key1", 2, t), Err(CacheError::NotObtained)));
    assert!(mc.set_at("key1", vec![1, 2, 3, 4], 100, t).is_err());
    mc.del("key1");

    assert!(mc.obtain_at("key1", 100, t));
    let t = t + 200;
    mc.clean_expired_values(t);
    assert!(mc.is_empty());

    let res = (mc.obtain_at("key1", 100, t), mc.obtain_at("key1", 100, t), mc.obtain_at("key1", 100, t));
    match res {
        (true, false, false) | (false, true, false) | (false, false, true) => {}
        _ => panic!("unexpected result"),
    }
    assert_eq!(mc.len(), 1);

    let t = t + 200;
    assert_eq!(mc.len(), 1);
    mc.clean_expired_values(t);
    assert!(mc.is_empty());
    assert_eq!(mc.len(), 0);
}

#[test]
fn the_lock_is_one_zero_byte_and_never_a_response() {
    let mut mc = MemoryCacher::new();
    assert!(mc.obtain_at("k", 50, 0));
    assert_eq!(mc.get_at("k", 0), Some(vec![0u8]));
    assert!(matches!(poll_step(Some(vec![0u8]), 3), PollStep::Wait { remaining: 2 }));
    assert!(matches!(poll_step(Some(vec![]), 1), PollStep::Wait { remaining: 0 }));
    assert!(matches!(poll_step(Some(vec![7]), 1), PollStep::Wait { remaining: 0 }));
    assert!(matches!(poll_step(Some(vec![7, 8]), 1), PollStep::Ready(v) if v == vec![7, 8]));
    assert!(matches!(poll_step(None, 1), PollStep::NotObtained));
    assert!(matches!(poll_step(Some(vec![7, 8]), 0), PollStep::Timeout));
    assert!(matches!(polling_get(&mc, "k", 5, 0), Err(CacheError::Timeout)));
    assert_eq!(CacheError::Timeout.message(), "polling get cache timeout");
    assert_eq!(CacheError::Timeout.status(), 504);
    assert_eq!(CacheError::NotObtained.message(), "not obtained");
    assert_eq!(CacheError::NotObtained.status(), 500);
    assert_eq!(CacheError::Backend("down".to_string()).message(), "down");
}

#[test]
fn exactly_one_of_many_obtains_wins_until_the_entry_expires() {
    let mut mc = MemoryCacher::new();
    let mut wins = 0;
    for t in 10..110u64 {
        if mc.obtain_at("k", 100, t) {
            wins += 1;
        }
    }
    assert_eq!(wins, 1);
    // at its expiry the entry is invisible and the next request wins
    assert!(mc.obtain_at("k", 100, 110));
    // an entry that lives for no time is never visible
    assert!(mc.obtain_at("other", 0, 5));
    assert!(mc.obtain_at("other", 1, 5));
    assert!(!mc.obtain_at("other", 1, 5));
}

#[test]
fn a_stored_value_is_seen_until_the_expiry() {
    let mut mc = MemoryCacher::new();
    assert!(mc.obtain_at("k", 100, 0));
    assert!(matches!(mc.set_at("k", vec![1, 2], 30, 50), Ok(true)));
    for t in 50..80 {
        assert_eq!(mc.get_at("k", t), Some(vec![1, 2]));
    }
    assert_eq!(mc.get_at("k", 80), None);
    // times near the end of time do not wrap
    assert!(mc.obtain_at("late", u64::MAX, u64::MAX - 1));
    assert_eq!(mc.get_at("late", u64::MAX - 1), Some(vec![0]));
    assert_eq!(mc.get_at("late", u64::MAX), None);
}

#[test]
fn after_delete_the_next_request_wins() {
    let mut mc = MemoryCacher::new();
    assert!(mc.obtain_at("k", 1000, 0));
    assert!(!mc.obtain_at("k", 1000, 1));
    mc.del("k");
    assert!(mc.obtain_at("k", 1000, 2));
    mc.del("k");
    mc.del("k");
    assert!(matches!(mc.set_at("k", vec![1, 2], 10, 3), Err(CacheError::NotObtained)));
}

#[test]
fn sweeping_removes_expired_entries_only() {
    let mut mc = MemoryCacher::new();
    assert!(mc.obtain_at("a", 10, 0));
    assert!(mc.obtain_at("b", 20, 0));
    assert!(mc.obtain_at("c", 30, 0));
    mc.clean_expired_values(20);
    assert_eq!(mc.len(), 1);
    assert_eq!(mc.get_at("c", 20), Some(vec![0]));
    assert_eq!(mc.get_at("a", 0), None);
}
