//! The tiered fallback/backfill algorithm, end to end.

use std::cell::Cell;

use tiered_cache::Cache;
use tiered_cache::CacheError;
use tiered_cache::Coalesce;
use tiered_cache::FlatStore;
use tiered_cache::Layer;
use tiered_cache::LoadError;
use tiered_cache::RecencyStore;

#[test]
fn it_works() {
    let cache = Cache::new(
        vec![
            Layer::from(RecencyStore::new(100)),
            Layer::from(FlatStore::new()),
        ],
        Some(true),
        |_k: &String| Ok(Some("value".to_string())),
    );
    let mut cache = Coalesce::new(cache);
    let result = cache.get(&"key".to_string());
    assert_eq!(result, Ok(Some("value".to_string())));
}

#[test]
fn tier_ordering_backfills_faster_tier() {
    // Tier A (bounded, empty) before tier B (holding key -> v): the hit in B
    // comes back, and A gains the pair while B keeps it.
    let mut b = FlatStore::new();
    b.put(&"key".to_string(), &"v".to_string());
    let calls = Cell::new(0u32);
    let mut cache = Cache::new(
        vec![Layer::from(RecencyStore::new(2)), Layer::from(b)],
        None,
        |_k: &String| -> Result<Option<String>, LoadError> {
            calls.set(calls.get() + 1);
            Ok(None)
        },
    );
    assert_eq!(cache.get(&"key".to_string()), Ok(Some("v".to_string())));
    assert_eq!(calls.get(), 0, "a tier hit must not invoke the loader");
    assert_eq!(
        cache.peek_tier(0, &"key".to_string()),
        Ok(Some("v".to_string()))
    );
    assert_eq!(
        cache.peek_tier(1, &"key".to_string()),
        Ok(Some("v".to_string()))
    );
}

#[test]
fn no_negative_caching() {
    let calls = Cell::new(0u32);
    let mut cache = Cache::new(
        vec![Layer::from(RecencyStore::new(2)), Layer::from(FlatStore::new())],
        None,
        |_k: &u64| -> Result<Option<u64>, LoadError> {
            calls.set(calls.get() + 1);
            Ok(None)
        },
    );
    assert_eq!(cache.get(&9), Ok(None));
    assert_eq!(calls.get(), 1);
    assert_eq!(cache.get(&9), Ok(None));
    assert_eq!(calls.get(), 2, "absence is never cached: the loader runs again");
    assert_eq!(cache.peek_tier(0, &9), Ok(None));
    assert_eq!(cache.peek_tier(1, &9), Ok(None));
}

#[test]
fn end_to_end_bounded_then_shared() {
    // tiers = [empty bounded-recency(cap=2), empty concurrent-store],
    // loader(k) -> "v" for any k.
    let calls = Cell::new(0u32);
    let mut cache = Cache::new(
        vec![Layer::from(RecencyStore::new(2)), Layer::from(FlatStore::new())],
        None,
        |_k: &String| {
            calls.set(calls.get() + 1);
            Ok(Some("v".to_string()))
        },
    );
    assert_eq!(cache.get(&"a".to_string()), Ok(Some("v".to_string())));
    assert_eq!(calls.get(), 1);
    // both tiers now hold "a" -> "v"
    assert_eq!(cache.peek_tier(0, &"a".to_string()), Ok(Some("v".to_string())));
    assert_eq!(cache.peek_tier(1, &"a".to_string()), Ok(Some("v".to_string())));
    // a second get comes from tier 0 without invoking the loader
    assert_eq!(cache.get(&"a".to_string()), Ok(Some("v".to_string())));
    assert_eq!(calls.get(), 1);
}

#[test]
fn loader_failure_propagates() {
    let mut cache = Cache::new(
        vec![Layer::from(FlatStore::new())],
        None,
        |_k: &u64| -> Result<Option<u64>, LoadError> { Err(LoadError) },
    );
    assert_eq!(cache.get(&1), Err(CacheError::LoadFailure));
    // the failure was not cached either
    assert_eq!(cache.peek_tier(0, &1), Ok(None));
}

#[test]
fn absorbing_tier_is_skipped_and_stays_empty() {
    // A NoCache tier in front absorbs its backfill; the value still reaches
    // the caller and the storing tier behind it.
    let mut b = FlatStore::new();
    b.put(&7u64, &70u64);
    let mut cache = Cache::new(
        vec![Layer::NoCache, Layer::from(b)],
        None,
        |_k: &u64| -> Result<Option<u64>, LoadError> { Ok(None) },
    );
    assert_eq!(cache.get(&7), Ok(Some(70)));
    assert_eq!(cache.peek_tier(0, &7), Ok(None));
    assert_eq!(cache.peek_tier(1, &7), Ok(Some(70)));
}

#[test]
fn coalesce_flag_is_kept() {
    let on = Cache::new(Vec::new(), Some(true), |_k: &u64| Ok(Some(1u64)));
    assert!(on.is_coalescing());
    let off = Cache::new(Vec::new(), Some(false), |_k: &u64| Ok(Some(1u64)));
    assert!(!off.is_coalescing());
    let default = Cache::new(Vec::new(), None, |_k: &u64| Ok(Some(1u64)));
    assert!(!default.is_coalescing());
}
