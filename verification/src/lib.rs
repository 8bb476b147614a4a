//! A layered read-through cache: an ordered chain of cache tiers in front of
//! an expensive loader, with a single-flight coalescer that deduplicates
//! concurrent fetches for the same key.
//!
//! `Cache` probes its tiers fastest-first, falls back to the loader on a full
//! miss, and backfills every faster tier with the value it found. `Coalesce`
//! wraps any `AsyncCache` and guarantees at most one underlying fetch per key,
//! fanning the single outcome out to every waiting caller.

use vstd::prelude::*;

mod cache;
mod coalesce;
mod keys;
mod kvseq;
mod layer;
mod store;

pub use cache::Cache;
pub use cache::backfilled;
pub use cache::cache_get_post;
pub use cache::first_hit;
pub use cache::first_hit_from;
pub use cache::lemma_backfill_tolerance;
pub use cache::lemma_cache_get_contract;
pub use cache::lemma_no_negative_caching;
pub use cache::lemma_tier_ordering;
pub use coalesce::Coalesce;
pub use coalesce::coalesce_get_post;
pub use coalesce::lemma_coalesce_cleanup;
pub use coalesce::lemma_coalesce_get_contract;
pub use coalesce::Role;
pub use coalesce::SingleFlight;
pub use coalesce::lemma_independent_fetches;
pub use coalesce::lemma_single_fetch;
pub use coalesce::outcome_view;
pub use layer::Layer;
pub use store::FlatStore;
pub use store::RecencyStore;

verus! {

/// Failure of a single tier's backend.
#[derive(Clone, Copy, Debug, PartialEq, Eq, Structural)]
pub struct TierError;

/// Failure of the user-supplied loader.
#[derive(Clone, Copy, Debug, PartialEq, Eq, Structural)]
pub struct LoadError;

/// A failure surfaced by `get`: a tier malfunctioned, the loader
/// malfunctioned, or the in-flight fetch was abandoned before it resolved.
/// A miss (no value for the key) is not an error and is reported as `Ok(None)`.
#[derive(Clone, Copy, Debug, PartialEq, Eq, Structural)]
pub enum CacheError {
    TierFailure,
    LoadFailure,
    Cancelled,
}

/// A key: cloneable, with an executable equality that decides equality of the
/// keys' mathematical views. Keys are stored both inside tiers and inside the
/// coalescer's in-flight bookkeeping.
pub trait CacheKey: Sized + View {
    fn key_eq(&self, other: &Self) -> (r: bool)
        ensures
            r == (self@ == other@),
    ;

    fn key_clone(&self) -> (r: Self)
        ensures
            r@ == self@,
    ;
}

/// A value: an immutable snapshot once produced; cloning preserves its view.
pub trait CacheValue: Sized + View {
    fn value_clone(&self) -> (r: Self)
        ensures
            r@ == self@,
    ;
}

/// The cache capability: one operation, `get(key)`, which yields a value, a
/// miss, or a failure. Each implementation fixes what its `get` guarantees by
/// defining `wf` (well-formedness, preserved by `get`) and `get_ens` (the
/// relation between the state before the call, the state after, the key, and
/// the outcome). At an asynchronous application boundary a fetch is a
/// suspension point; this trait is that capability's decision core, driven
/// directly here and from an asynchronous wrapper outside.
pub trait AsyncCache: Sized {
    type K: CacheKey;

    type V: CacheValue;

    spec fn wf(&self) -> bool;

    spec fn get_ens(
        &self,
        pre: Self,
        key: &Self::K,
        r: Result<Option<Self::V>, CacheError>,
    ) -> bool;

    fn get(&mut self, key: &Self::K) -> (r: Result<Option<Self::V>, CacheError>)
        requires
            old(self).wf(),
        ensures
            final(self).wf(),
            final(self).get_ens(*old(self), key, r),
    ;
}

} // verus!
