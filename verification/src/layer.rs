//! One cache tier: a pluggable backend behind a uniform get/put capability.

use vstd::prelude::*;

use crate::CacheKey;
use crate::CacheValue;
use crate::TierError;
use crate::store::FlatStore;
use crate::store::RecencyStore;

verus! {

/// A tier backend. `NoCache` disables a tier without removing it
/// structurally; `Bounded` is the recency-evicting store; `Shared` is the
/// unbounded concurrent store.
pub enum Layer<K: CacheKey, V: CacheValue> {
    NoCache,
    Bounded(RecencyStore<K, V>),
    Shared(FlatStore<K, V>),
}

impl<K: CacheKey, V: CacheValue> Layer<K, V> {
    pub open spec fn wf(&self) -> bool {
        match self {
            Layer::NoCache => true,
            Layer::Bounded(s) => s.wf(),
            Layer::Shared(s) => s.wf(),
        }
    }

    /// The key→value mapping this tier holds.
    pub open spec fn contents(&self) -> Map<<K as View>::V, <V as View>::V> {
        match self {
            Layer::NoCache => Map::empty(),
            Layer::Bounded(s) => s.contents(),
            Layer::Shared(s) => s.contents(),
        }
    }

    /// Whether the tier absorbs writes without storing them.
    pub open spec fn absorbs(&self) -> bool {
        self is NoCache
    }

    /// Probes the tier. Reads never change the mapping (a bounded tier's
    /// recency bookkeeping may move); the built-in backends never malfunction,
    /// so the `TierError` leg of the tier capability is never taken here.
    pub fn get(&mut self, key: &K) -> (r: Result<Option<V>, TierError>)
        requires
            old(self).wf(),
        ensures
            final(self).wf(),
            final(self).contents() == old(self).contents(),
            final(self).absorbs() == old(self).absorbs(),
            match r {
                Ok(Some(v)) => old(self).contents().contains_pair(key@, v@),
                Ok(None) => !old(self).contents().dom().contains(key@),
                Err(_) => false,
            },
    {
        match self {
            Layer::NoCache => Ok(None),
            Layer::Bounded(s) => Ok(s.get(key)),
            Layer::Shared(s) => Ok(s.get(key)),
        }
    }

    /// Writes into the tier. A storing tier afterwards maps the key to the
    /// value and holds no entry it did not already hold; an absorbing tier is
    /// unchanged. The built-in backends never malfunction.
    pub fn put(&mut self, key: &K, value: &V) -> (r: Result<(), TierError>)
        requires
            old(self).wf(),
        ensures
            final(self).wf(),
            final(self).absorbs() == old(self).absorbs(),
            r is Ok,
            old(self).absorbs() ==> final(self).contents() == old(self).contents(),
            !old(self).absorbs() ==> final(self).contents().contains_pair(key@, value@),
            forall|k2: <K as View>::V|
                k2 != key@ && #[trigger] final(self).contents().dom().contains(k2) ==> old(
                    self,
                ).contents().contains_pair(k2, final(self).contents()[k2]),
    {
        match self {
            Layer::NoCache => Ok(()),
            Layer::Bounded(s) => {
                s.put(key, value);
                Ok(())
            },
            Layer::Shared(s) => {
                s.put(key, value);
                Ok(())
            },
        }
    }
}

impl<K: CacheKey, V: CacheValue> From<RecencyStore<K, V>> for Layer<K, V> {
    fn from(store: RecencyStore<K, V>) -> (r: Layer<K, V>) {
        Layer::Bounded(store)
    }
}

impl<K: CacheKey, V: CacheValue> vstd::std_specs::convert::FromSpecImpl<RecencyStore<K, V>> for Layer<K, V> {
    open spec fn obeys_from_spec() -> bool {
        true
    }

    open spec fn from_spec(store: RecencyStore<K, V>) -> Self {
        Layer::Bounded(store)
    }
}

impl<K: CacheKey, V: CacheValue> From<FlatStore<K, V>> for Layer<K, V> {
    fn from(store: FlatStore<K, V>) -> (r: Layer<K, V>) {
        Layer::Shared(store)
    }
}

impl<K: CacheKey, V: CacheValue> vstd::std_specs::convert::FromSpecImpl<FlatStore<K, V>> for Layer<K, V> {
    open spec fn obeys_from_spec() -> bool {
        true
    }

    open spec fn from_spec(store: FlatStore<K, V>) -> Self {
        Layer::Shared(store)
    }
}

} // verus!
