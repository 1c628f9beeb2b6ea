use xivdata::cache::{LookupStep, SyncMode, TtlCache, DEFAULT_TTL_SECS};

#[test]
fn test_idempotence_within_ttl() {
    let mut c: TtlCache<u64, String> = TtlCache::new(DEFAULT_TTL_SECS, SyncMode::Synchronized);
    assert_eq!(c.lookup(1, 1000), LookupStep::Fetch);
    c.complete(1, "Lamia".to_string(), 1000);
    // same key, still within the 24 h window: hit, identical value, no fetch
    assert_eq!(c.lookup(1, 1000), LookupStep::Hit);
    assert_eq!(c.get(&1, 1000), Some(&"Lamia".to_string()));
    assert_eq!(c.lookup(1, 1000 + DEFAULT_TTL_SECS - 1), LookupStep::Hit);
    assert_eq!(
        c.get(&1, 1000 + DEFAULT_TTL_SECS - 1),
        Some(&"Lamia".to_string())
    );
}

#[test]
fn test_singleflight() {
    let mut c: TtlCache<String, u64> = TtlCache::new(DEFAULT_TTL_SECS, SyncMode::Synchronized);
    // first caller of the key is told to fetch; the key is marked in flight
    assert_eq!(c.lookup("worlds".to_string(), 5), LookupStep::Fetch);
    // every concurrent caller of the same key is told to wait, not fetch
    assert_eq!(c.lookup("worlds".to_string(), 5), LookupStep::Wait);
    assert_eq!(c.lookup("worlds".to_string(), 6), LookupStep::Wait);
    // an unrelated key is unaffected
    assert_eq!(c.lookup("items".to_string(), 6), LookupStep::Fetch);
    // once the one fetch completes, all callers see its result
    c.complete("worlds".to_string(), 77, 7);
    assert_eq!(c.lookup("worlds".to_string(), 8), LookupStep::Hit);
    assert_eq!(c.get(&"worlds".to_string(), 8), Some(&77));
}

#[test]
fn test_unsynchronized_racers() {
    let mut c: TtlCache<u64, u64> = TtlCache::new(DEFAULT_TTL_SECS, SyncMode::Unsynchronized);
    // without synchronization every caller that misses may fetch
    assert_eq!(c.lookup(9, 0), LookupStep::Fetch);
    assert_eq!(c.lookup(9, 0), LookupStep::Fetch);
    // the last completed write wins
    c.complete(9, 1, 0);
    c.complete(9, 2, 0);
    assert_eq!(c.get(&9, 0), Some(&2));
}

#[test]
fn test_expiry() {
    let mut c: TtlCache<u64, u64> = TtlCache::new(DEFAULT_TTL_SECS, SyncMode::Synchronized);
    assert_eq!(c.lookup(3, 100), LookupStep::Fetch);
    c.complete(3, 10, 100);
    // just inside the window: served from the cache
    assert_eq!(c.lookup(3, 100 + DEFAULT_TTL_SECS - 1), LookupStep::Hit);
    // once the TTL has elapsed, the next call triggers exactly one fresh fetch
    assert_eq!(c.lookup(3, 100 + DEFAULT_TTL_SECS), LookupStep::Fetch);
    assert_eq!(c.get(&3, 100 + DEFAULT_TTL_SECS), None);
    // and further callers wait on that one fetch
    assert_eq!(c.lookup(3, 100 + DEFAULT_TTL_SECS), LookupStep::Wait);
    c.complete(3, 11, 100 + DEFAULT_TTL_SECS);
    assert_eq!(c.get(&3, 100 + DEFAULT_TTL_SECS), Some(&11));
}

#[test]
fn test_failures_are_cached() {
    // outcomes are stored as given: a memoized failure is served for the
    // full TTL exactly like a success
    let mut c: TtlCache<u64, Result<u64, String>> =
        TtlCache::new(DEFAULT_TTL_SECS, SyncMode::Synchronized);
    assert_eq!(c.lookup(4, 0), LookupStep::Fetch);
    c.complete(4, Err("connection failed".to_string()), 0);
    assert_eq!(c.lookup(4, 10), LookupStep::Hit);
    assert_eq!(c.get(&4, 10), Some(&Err("connection failed".to_string())));
}

#[test]
fn test_cache_accessors() {
    let c: TtlCache<u64, u64> = TtlCache::new(86400, SyncMode::Synchronized);
    assert_eq!(c.ttl_secs(), 86400);
    assert_eq!(c.mode(), SyncMode::Synchronized);
}
