//! The tier backends on their own: the unbounded store and the
//! recency-evicting bounded store.

use tiered_cache::FlatStore;
use tiered_cache::Layer;
use tiered_cache::RecencyStore;
use tiered_cache::TierError;

#[test]
fn flat_store_put_get_overwrite() {
    let mut s: FlatStore<u64, u64> = FlatStore::new();
    assert_eq!(s.get(&1), None);
    s.put(&1, &10);
    assert_eq!(s.get(&1), Some(10));
    s.put(&1, &11);
    assert_eq!(s.get(&1), Some(11));
    s.put(&2, &20);
    assert_eq!(s.get(&1), Some(11));
    assert_eq!(s.get(&2), Some(20));
}

#[test]
fn recency_store_evicts_least_recently_used() {
    let mut s: RecencyStore<String, u64> = RecencyStore::new(2);
    s.put(&"a".to_string(), &1);
    s.put(&"b".to_string(), &2);
    assert_eq!(s.len(), 2);
    // reading "a" makes "b" the least recently used
    assert_eq!(s.get(&"a".to_string()), Some(1));
    s.put(&"c".to_string(), &3);
    assert_eq!(s.len(), 2);
    assert_eq!(s.get(&"b".to_string()), None, "the least recently used entry leaves");
    assert_eq!(s.get(&"a".to_string()), Some(1));
    assert_eq!(s.get(&"c".to_string()), Some(3));
}

#[test]
fn recency_store_update_refreshes_recency() {
    let mut s: RecencyStore<u64, u64> = RecencyStore::new(2);
    s.put(&1, &10);
    s.put(&2, &20);
    // updating key 1 refreshes it: key 2 becomes the eviction victim
    s.put(&1, &11);
    s.put(&3, &30);
    assert_eq!(s.get(&2), None);
    assert_eq!(s.get(&1), Some(11));
    assert_eq!(s.get(&3), Some(30));
}

#[test]
fn layer_conversions_and_capability() {
    let mut bounded: Layer<u64, u64> = Layer::from(RecencyStore::new(1));
    assert_eq!(bounded.get(&1), Ok(None));
    assert_eq!(bounded.put(&1, &10), Ok(()));
    assert_eq!(bounded.get(&1), Ok(Some(10)));

    let mut shared: Layer<u64, u64> = Layer::from(FlatStore::new());
    assert_eq!(shared.put(&1, &10), Ok(()));
    assert_eq!(shared.get(&1), Ok(Some(10)));

    let mut off: Layer<u64, u64> = Layer::NoCache;
    assert_eq!(off.put(&1, &10), Ok(()));
    assert_eq!(off.get(&1), Ok(None), "a disabled tier reports absent");
    assert!(Ok::<(), TierError>(()) == off.put(&2, &20));
}
