//! The single-flight mechanism: one fetch per key, fan-out, cleanup, and the
//! identity-checked removal that closes the stale-cleanup race.

use std::cell::Cell;

use tiered_cache::Cache;
use tiered_cache::CacheError;
use tiered_cache::Coalesce;
use tiered_cache::FlatStore;
use tiered_cache::Layer;
use tiered_cache::Role;
use tiered_cache::SingleFlight;

#[test]
fn coalescing_single_fetch() {
    // One fetcher for a key; every concurrent caller becomes a waiter on the
    // same handle, and all observe the identical value.
    let mut flight: SingleFlight<u64, String> = SingleFlight::new();
    let fetcher = flight.begin(&1);
    let id = match fetcher {
        Role::Fetcher(id) => id,
        Role::Waiter(_) => panic!("first caller must fetch"),
    };
    let mut waiter_ids = Vec::new();
    for _ in 0..3 {
        match flight.begin(&1) {
            Role::Fetcher(_) => panic!("a second fetch for the same key"),
            Role::Waiter(w) => waiter_ids.push(w),
        }
    }
    assert!(waiter_ids.iter().all(|w| *w == id));
    // nobody sees a result before the fetcher resolves
    assert_eq!(flight.read(id), None);
    flight.resolve(id, Ok(Some("v".to_string())));
    for w in waiter_ids {
        assert_eq!(flight.read(w), Some(Ok(Some("v".to_string()))));
    }
    assert!(flight.finish(&1, id));
    assert!(!flight.is_pending(&1));
}

#[test]
fn coalescing_independent_keys() {
    // Fetches for different keys run as different fetches, neither blocking
    // the other; each resolves its own handle.
    let mut flight: SingleFlight<u64, u64> = SingleFlight::new();
    let a = match flight.begin(&1) {
        Role::Fetcher(id) => id,
        Role::Waiter(_) => panic!("no fetch was in flight for key 1"),
    };
    let b = match flight.begin(&2) {
        Role::Fetcher(id) => id,
        Role::Waiter(_) => panic!("no fetch was in flight for key 2"),
    };
    assert_ne!(a, b);
    flight.resolve(b, Ok(Some(20)));
    assert_eq!(flight.read(a), None, "key 1's fetch is still unresolved");
    assert_eq!(flight.read(b), Some(Ok(Some(20))));
    flight.resolve(a, Ok(Some(10)));
    assert_eq!(flight.read(a), Some(Ok(Some(10))));
    assert!(flight.finish(&2, b));
    assert!(flight.is_pending(&1));
    assert!(flight.finish(&1, a));
    assert!(!flight.is_pending(&1));
}

#[test]
fn coalescing_cleanup_allows_new_fetch() {
    // After a fetch completes, the pending entry is gone: the next caller
    // for the key fetches anew.
    let mut flight: SingleFlight<u64, u64> = SingleFlight::new();
    let first = match flight.begin(&5) {
        Role::Fetcher(id) => id,
        Role::Waiter(_) => panic!("no fetch was in flight"),
    };
    flight.resolve(first, Err(CacheError::LoadFailure));
    assert!(flight.finish(&5, first));
    match flight.begin(&5) {
        Role::Fetcher(second) => assert_ne!(first, second),
        Role::Waiter(_) => panic!("the completed fetch must not linger"),
    }
}

#[test]
fn failure_fans_out_to_all_waiters() {
    let mut flight: SingleFlight<u64, u64> = SingleFlight::new();
    let id = match flight.begin(&3) {
        Role::Fetcher(id) => id,
        Role::Waiter(_) => panic!("no fetch was in flight"),
    };
    let mut waiter_ids = Vec::new();
    for _ in 0..4 {
        match flight.begin(&3) {
            Role::Fetcher(_) => panic!("a second fetch for the same key"),
            Role::Waiter(w) => waiter_ids.push(w),
        }
    }
    flight.resolve(id, Err(CacheError::LoadFailure));
    for w in waiter_ids {
        assert_eq!(flight.read(w), Some(Err(CacheError::LoadFailure)));
    }
    assert!(flight.finish(&3, id));
    assert!(!flight.is_pending(&3));
}

#[test]
fn cancelled_fetch_fans_out_cancellation() {
    // An aborted fetch still resolves its handle (to Cancelled) and still
    // cleans up, so waiters are not left suspended forever.
    let mut flight: SingleFlight<u64, u64> = SingleFlight::new();
    let id = match flight.begin(&8) {
        Role::Fetcher(id) => id,
        Role::Waiter(_) => panic!("no fetch was in flight"),
    };
    let waiter = match flight.begin(&8) {
        Role::Fetcher(_) => panic!("a second fetch for the same key"),
        Role::Waiter(w) => w,
    };
    flight.resolve(id, Err(CacheError::Cancelled));
    assert!(flight.finish(&8, id));
    assert_eq!(flight.read(waiter), Some(Err(CacheError::Cancelled)));
    assert!(!flight.is_pending(&8));
}

#[test]
fn stale_cleanup_spares_newer_fetch() {
    // The race the identity check closes: fetcher A finishes; fetcher B for
    // the same key begins; A's stale cleanup runs again and must not evict
    // B's live entry.
    let mut flight: SingleFlight<String, u64> = SingleFlight::new();
    let key = "k".to_string();
    for _ in 0..100 {
        let a = match flight.begin(&key) {
            Role::Fetcher(id) => id,
            Role::Waiter(_) => panic!("no fetch was in flight"),
        };
        flight.resolve(a, Ok(Some(1)));
        assert!(flight.finish(&key, a));
        let b = match flight.begin(&key) {
            Role::Fetcher(id) => id,
            Role::Waiter(_) => panic!("the finished fetch must not linger"),
        };
        // the stale cleanup, by key alone it would delete B's entry
        assert!(!flight.finish(&key, a));
        assert!(flight.is_pending(&key), "the newer fetch's entry must survive");
        flight.resolve(b, Ok(Some(2)));
        assert_eq!(flight.read(b), Some(Ok(Some(2))));
        assert!(flight.finish(&key, b));
        assert!(!flight.is_pending(&key));
    }
}

#[test]
fn coalesced_cache_cleans_up_between_calls() {
    // Through the composite: every completed get leaves no pending entry, so
    // each sequential get reaches the delegate (and its loader) anew.
    let calls = Cell::new(0u32);
    let cache = Cache::new(
        vec![Layer::NoCache],
        Some(true),
        |k: &u64| {
            calls.set(calls.get() + 1);
            Ok(Some(*k + 100))
        },
    );
    let mut coalesced = Coalesce::new(cache);
    assert_eq!(coalesced.get(&1), Ok(Some(101)));
    assert_eq!(coalesced.get(&2), Ok(Some(102)));
    assert_eq!(coalesced.get(&1), Ok(Some(101)));
    assert_eq!(calls.get(), 3);
}

#[test]
fn coalesced_cache_fans_failure_to_caller() {
    let cache = Cache::new(Vec::new(), Some(true), |_k: &u64| -> Result<Option<u64>, tiered_cache::LoadError> {
        Err(tiered_cache::LoadError)
    });
    let mut coalesced = Coalesce::new(cache);
    assert_eq!(coalesced.get(&1), Err(CacheError::LoadFailure));
    assert_eq!(coalesced.get(&1), Err(CacheError::LoadFailure));
}

#[test]
fn coalesced_cache_serves_from_backfilled_tier() {
    let calls = Cell::new(0u32);
    let mut store = FlatStore::new();
    store.put(&"seed".to_string(), &"s".to_string());
    let cache = Cache::new(
        vec![Layer::from(store)],
        Some(true),
        |_k: &String| {
            calls.set(calls.get() + 1);
            Ok(Some("loaded".to_string()))
        },
    );
    let mut coalesced = Coalesce::new(cache);
    assert_eq!(coalesced.get(&"seed".to_string()), Ok(Some("s".to_string())));
    assert_eq!(calls.get(), 0);
    assert_eq!(
        coalesced.get(&"fresh".to_string()),
        Ok(Some("loaded".to_string()))
    );
    assert_eq!(calls.get(), 1);
    // backfilled: the second lookup is served by the tier
    assert_eq!(
        coalesced.get(&"fresh".to_string()),
        Ok(Some("loaded".to_string()))
    );
    assert_eq!(calls.get(), 1);
}
