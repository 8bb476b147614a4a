//! Request coalescing (single-flight): at most one underlying fetch per key,
//! its outcome fanned out to every concurrent caller for that key.
//!
//! `SingleFlight` is the bookkeeping that a coalescing wrapper drives under
//! its short critical section: a pending map from key to in-flight handle, and
//! the handles' result slots (the model of the shared pending-result handles
//! that waiters hold on to — a handle outlives its pending entry). `Coalesce`
//! wraps a delegate and runs the full fetch lifecycle: begin as the fetcher,
//! fetch, resolve the handle, then remove the pending entry — checking that
//! the entry removed is its own, so a stale cleanup can never evict a newer
//! fetch's live entry.

use vstd::prelude::*;

use crate::AsyncCache;
use crate::CacheError;
use crate::CacheKey;
use crate::CacheValue;
use crate::kvseq::as_map;
use crate::kvseq::find_key;
use crate::kvseq::has_key;
use crate::kvseq::keys_distinct;
use crate::kvseq::lemma_as_map_index;
use crate::kvseq::lemma_as_map_push;
use crate::kvseq::lemma_as_map_remove;

verus! {

/// What a fetch produced: a value, an absence, or a failure. Fanned out
/// verbatim to every caller that waited on it.
pub open spec fn outcome_view<V: CacheValue>(r: Result<Option<V>, CacheError>) -> Result<
    Option<<V as View>::V>,
    CacheError,
> {
    match r {
        Ok(Some(v)) => Ok(Some(v@)),
        Ok(None) => Ok(None),
        Err(e) => Err(e),
    }
}

/// Clones an outcome; `CacheValue` cloning preserves the view.
fn clone_outcome<V: CacheValue>(r: &Result<Option<V>, CacheError>) -> (c: Result<
    Option<V>,
    CacheError,
>)
    ensures
        outcome_view(c) == outcome_view(*r),
{
    match r {
        Ok(Some(v)) => Ok(Some(v.value_clone())),
        Ok(None) => Ok(None),
        Err(e) => Err(*e),
    }
}

/// The part a caller plays for one key: the fetcher performs the single
/// underlying fetch; a waiter suspends on the fetcher's handle.
#[derive(Clone, Copy, Debug, PartialEq, Eq, Structural)]
pub enum Role {
    Fetcher(usize),
    Waiter(usize),
}

/// The coalescer's bookkeeping. Handles are numbered in creation order; a
/// handle's slot is `None` until its fetcher resolves it, exactly once, and
/// the resolved outcome never changes afterwards. The pending map holds at
/// most one live handle per key — the single-flight invariant.
pub struct SingleFlight<K: CacheKey, V: CacheValue> {
    pending: Vec<(K, usize)>,
    handles: Vec<Option<Result<Option<V>, CacheError>>>,
}

impl<K: CacheKey, V: CacheValue> SingleFlight<K, V> {
    /// The in-flight entries: key → handle.
    pub closed spec fn pending_map(&self) -> Map<<K as View>::V, usize> {
        as_map(self.pending@)
    }

    /// How many handles were ever created.
    pub closed spec fn handle_count(&self) -> int {
        self.handles@.len() as int
    }

    /// Whether `id` names a handle.
    pub open spec fn has_handle(&self, id: int) -> bool {
        0 <= id < self.handle_count()
    }

    /// The state of handle `id`: `None` until resolved, then forever the
    /// fetch's outcome.
    pub closed spec fn slot_of(&self, id: int) -> Option<
        Result<Option<<V as View>::V>, CacheError>,
    > {
        match self.handles@[id] {
            None => None,
            Some(out) => Some(outcome_view(out)),
        }
    }

    /// Well-formed: one pending entry per key, every pending entry names an
    /// existing handle, and no two pending entries share a handle.
    pub closed spec fn wf(&self) -> bool {
        &&& keys_distinct(self.pending@)
        &&& forall|i: int|
            0 <= i < self.pending@.len() ==> (#[trigger] self.pending@[i]).1 < self.handles@.len()
        &&& forall|i: int, j: int|
            0 <= i < j < self.pending@.len() ==> self.pending@[i].1 != self.pending@[j].1
    }

    pub fn new() -> (r: Self)
        ensures
            r.wf(),
            r.pending_map() == Map::<<K as View>::V, usize>::empty(),
            r.handle_count() == 0,
    {
        let r = SingleFlight { pending: Vec::new(), handles: Vec::new() };
        proof {
            assert(r.pending_map() =~= Map::<<K as View>::V, usize>::empty());
        }
        r
    }

    /// Whether a fetch for the key is in flight.
    pub fn is_pending(&self, key: &K) -> (r: bool)
        requires
            self.wf(),
        ensures
            r == self.pending_map().dom().contains(key@),
    {
        match find_key(&self.pending, key) {
            Some(i) => {
                proof {
                    lemma_as_map_index(self.pending@, i as int);
                }
                true
            },
            None => false,
        }
    }

    /// The first step of a caller's `get`, under the critical section: if a
    /// fetch for the key is in flight, the caller is a waiter on that very
    /// fetch's handle; otherwise it becomes the fetcher, with a fresh,
    /// unresolved handle registered under the key. A caller is a fetcher
    /// exactly when no fetch was in flight — never a second fetcher per key.
    pub fn begin(&mut self, key: &K) -> (r: Role)
        requires
            old(self).wf(),
        ensures
            final(self).wf(),
            (r is Waiter) == old(self).pending_map().dom().contains(key@),
            match r {
                Role::Waiter(id) => {
                    &&& old(self).pending_map().contains_pair(key@, id)
                    &&& old(self).has_handle(id as int)
                    &&& *final(self) == *old(self)
                },
                Role::Fetcher(id) => {
                    &&& !old(self).pending_map().dom().contains(key@)
                    &&& id == old(self).handle_count()
                    &&& final(self).pending_map() == old(self).pending_map().insert(key@, id)
                    &&& final(self).handle_count() == old(self).handle_count() + 1
                    &&& final(self).slot_of(id as int) is None
                    &&& forall|h: int|
                        0 <= h < old(self).handle_count() ==> final(self).slot_of(h) == old(
                            self,
                        ).slot_of(h)
                },
            },
    {
        match find_key(&self.pending, key) {
            Some(i) => {
                proof {
                    lemma_as_map_index(self.pending@, i as int);
                }
                Role::Waiter(self.pending[i].1)
            },
            None => {
                let id = self.handles.len();
                self.handles.push(None);
                let kc = key.key_clone();
                proof {
                    lemma_as_map_push(self.pending@, (kc, id));
                    assert(as_map(self.pending@.push((kc, id))) =~= old(
                        self,
                    ).pending_map().insert(key@, id));
                }
                self.pending.push((kc, id));
                Role::Fetcher(id)
            },
        }
    }

    /// The fetcher writes the fetch's outcome into its handle, exactly once;
    /// every other handle, and the pending map, stay as they were.
    pub fn resolve(&mut self, id: usize, outcome: Result<Option<V>, CacheError>)
        requires
            old(self).wf(),
            old(self).has_handle(id as int),
            old(self).slot_of(id as int) is None,
        ensures
            final(self).wf(),
            final(self).slot_of(id as int) == Some(outcome_view(outcome)),
            final(self).handle_count() == old(self).handle_count(),
            forall|h: int|
                0 <= h < old(self).handle_count() && h != id ==> final(self).slot_of(h) == old(
                    self,
                ).slot_of(h),
            final(self).pending_map() == old(self).pending_map(),
    {
        self.handles[id] = Some(outcome);
    }

    /// What a waiter observes on its handle: nothing yet, or the resolved
    /// outcome — the same one for every waiter that reads it.
    pub fn read(&self, id: usize) -> (r: Option<Result<Option<V>, CacheError>>)
        ensures
            match r {
                Some(out) => self.has_handle(id as int) && self.slot_of(id as int) == Some(
                    outcome_view(out),
                ),
                None => !self.has_handle(id as int) || self.slot_of(id as int) is None,
            },
    {
        if id < self.handles.len() {
            match &self.handles[id] {
                Some(out) => Some(clone_outcome(out)),
                None => None,
            }
        } else {
            None
        }
    }

    /// The fetcher's cleanup, on every exit path: removes the key's pending
    /// entry, but only after checking the entry is its own — identified by the
    /// handle, not by the key alone. A stale cleanup (the entry now belongs to
    /// a newer fetch) removes nothing.
    pub fn finish(&mut self, key: &K, id: usize) -> (removed: bool)
        requires
            old(self).wf(),
        ensures
            final(self).wf(),
            removed == old(self).pending_map().contains_pair(key@, id),
            removed ==> final(self).pending_map() == old(self).pending_map().remove(key@),
            !removed ==> *final(self) == *old(self),
            final(self).handle_count() == old(self).handle_count(),
            forall|h: int|
                0 <= h < old(self).handle_count() ==> final(self).slot_of(h) == old(self).slot_of(
                    h,
                ),
    {
        match find_key(&self.pending, key) {
            Some(i) => {
                proof {
                    lemma_as_map_index(self.pending@, i as int);
                }
                if self.pending[i].1 == id {
                    proof {
                        lemma_as_map_remove(self.pending@, i as int);
                    }
                    self.pending.remove(i);
                    true
                } else {
                    false
                }
            },
            None => false,
        }
    }
}

/// A decorator guaranteeing at most one concurrent underlying fetch per key.
/// Run sequentially, each `get` plays the whole lifecycle: fetcher
/// registration, the delegate's fetch, resolution, and identity-checked
/// cleanup — so after a `get` for a key, no pending entry for it remains. A
/// caller that instead finds a fetch in flight is a waiter: it observes
/// exactly the resolved outcome, or — if the fetch was abandoned unresolved —
/// a `Cancelled` failure.
#[verifier::reject_recursive_types(K)]
#[verifier::reject_recursive_types(V)]
pub struct Coalesce<K: CacheKey, V: CacheValue, C: AsyncCache<K = K, V = V>> {
    delegate: C,
    flight: SingleFlight<K, V>,
}

impl<K: CacheKey, V: CacheValue, C: AsyncCache<K = K, V = V>> Coalesce<K, V, C> {
    /// The wrapped delegate.
    pub closed spec fn delegate_spec(&self) -> C {
        self.delegate
    }

    /// The in-flight bookkeeping.
    pub closed spec fn flight_spec(&self) -> SingleFlight<K, V> {
        self.flight
    }

    pub fn new(delegate: C) -> (r: Self)
        ensures
            r.delegate_spec() == delegate,
            r.flight_spec().pending_map() == Map::<<K as View>::V, usize>::empty(),
            r.flight_spec().handle_count() == 0,
            r.flight_spec().wf(),
            delegate.wf() ==> r.wf(),
    {
        Coalesce { delegate, flight: SingleFlight::new() }
    }

    /// One caller's `get` through the coalescer, playing whichever part
    /// `begin` assigns (see `coalesce_get_post`). The fetcher's cleanup runs
    /// on its own entry and on no other.
    pub fn get(&mut self, key: &K) -> (r: Result<Option<V>, CacheError>)
        requires
            old(self).wf(),
        ensures
            final(self).wf(),
            coalesce_get_post(*old(self), *final(self), key, r),
    {
        match self.flight.begin(key) {
            Role::Fetcher(id) => {
                let out = self.delegate.get(key);
                let stored = clone_outcome(&out);
                self.flight.resolve(id, stored);
                let removed = self.flight.finish(key, id);
                proof {
                    assert(removed);
                    assert(self.flight.pending_map() =~= old(self).flight_spec().pending_map());
                }
                out
            },
            Role::Waiter(id) => {
                match self.flight.read(id) {
                    Some(out) => out,
                    None => Err(CacheError::Cancelled),
                }
            },
        }
    }
}

/// What one coalesced `get` did. A caller that found a fetch for the key in
/// flight is a waiter: it observes exactly that fetch's resolved outcome (or
/// `Cancelled`, if the fetch was abandoned unresolved) and changes nothing.
/// Otherwise the caller is the fetcher: the delegate was fetched once, per
/// the delegate's own contract; the outcome was resolved into a fresh handle
/// for any waiter to observe; and the pending entry was cleaned up on every
/// exit path, so no entry for the key remains.
pub open spec fn coalesce_get_post<K: CacheKey, V: CacheValue, C: AsyncCache<K = K, V = V>>(
    pre: Coalesce<K, V, C>,
    post: Coalesce<K, V, C>,
    key: &K,
    r: Result<Option<V>, CacheError>,
) -> bool {
    let fl = pre.flight_spec();
    if fl.pending_map().dom().contains(key@) {
        let id = fl.pending_map()[key@];
        &&& post == pre
        &&& match fl.slot_of(id as int) {
            Some(out) => outcome_view(r) == out,
            None => r == Err::<Option<V>, CacheError>(CacheError::Cancelled),
        }
    } else {
        &&& post.delegate_spec().get_ens(pre.delegate_spec(), key, r)
        &&& post.flight_spec().pending_map() == fl.pending_map()
        &&& !post.flight_spec().pending_map().dom().contains(key@)
        &&& post.flight_spec().handle_count() == fl.handle_count() + 1
        &&& post.flight_spec().slot_of(fl.handle_count()) == Some(outcome_view(r))
        &&& forall|h: int|
            0 <= h < fl.handle_count() ==> post.flight_spec().slot_of(h) == fl.slot_of(h)
    }
}

impl<K: CacheKey, V: CacheValue, C: AsyncCache<K = K, V = V>> AsyncCache for Coalesce<K, V, C> {
    type K = K;

    type V = V;

    open spec fn wf(&self) -> bool {
        &&& self.delegate_spec().wf()
        &&& self.flight_spec().wf()
    }

    open spec fn get_ens(&self, pre: Self, key: &K, r: Result<Option<V>, CacheError>) -> bool {
        coalesce_get_post(pre, *self, key, r)
    }

    fn get(&mut self, key: &K) -> (r: Result<Option<V>, CacheError>) {
        Coalesce::get(self, key)
    }
}

/// The coalescer's capability contract is `coalesce_get_post`: what the
/// `AsyncCache` trait states abstractly of a `Coalesce` resolves to it.
pub proof fn lemma_coalesce_get_contract<K: CacheKey, V: CacheValue, C: AsyncCache<K = K, V = V>>(
    pre: Coalesce<K, V, C>,
    post: Coalesce<K, V, C>,
    key: &K,
    r: Result<Option<V>, CacheError>,
)
    ensures
        post.get_ens(pre, key, r) == coalesce_get_post(pre, post, key, r),
        pre.wf() == (pre.delegate_spec().wf() && pre.flight_spec().wf()),
{
}

/// Cleanup: a completed fetch leaves no pending entry for its key, so a
/// subsequent `get` for that key fetches from the delegate anew instead of
/// observing a stale handle.
pub proof fn lemma_coalesce_cleanup<K: CacheKey, V: CacheValue, C: AsyncCache<K = K, V = V>>(
    pre: Coalesce<K, V, C>,
    mid: Coalesce<K, V, C>,
    post: Coalesce<K, V, C>,
    key: &K,
    r1: Result<Option<V>, CacheError>,
    r2: Result<Option<V>, CacheError>,
)
    requires
        !pre.flight_spec().pending_map().dom().contains(key@),
        coalesce_get_post(pre, mid, key, r1),
        coalesce_get_post(mid, post, key, r2),
    ensures
        !mid.flight_spec().pending_map().dom().contains(key@),
        post.delegate_spec().get_ens(mid.delegate_spec(), key, r2),
{
}

/// Single fetch per key: the pending map holds one handle per in-flight key,
/// so all concurrent callers for that key wait on the same fetch.
pub proof fn lemma_single_fetch<K: CacheKey, V: CacheValue>(
    s: SingleFlight<K, V>,
    k: <K as View>::V,
    id1: usize,
    id2: usize,
)
    requires
        s.wf(),
        s.pending_map().contains_pair(k, id1),
        s.pending_map().contains_pair(k, id2),
    ensures
        id1 == id2,
{
}

/// Independence across keys: in-flight fetches for different keys are
/// different fetches — they share no handle, so neither resolves the other.
pub proof fn lemma_independent_fetches<K: CacheKey, V: CacheValue>(
    s: SingleFlight<K, V>,
    k1: <K as View>::V,
    k2: <K as View>::V,
    id1: usize,
    id2: usize,
)
    requires
        s.wf(),
        s.pending_map().contains_pair(k1, id1),
        s.pending_map().contains_pair(k2, id2),
        k1 != k2,
    ensures
        id1 != id2,
{
    assert(has_key(s.pending@, k1));
    assert(has_key(s.pending@, k2));
    let i1 = choose|i: int| 0 <= i < s.pending@.len() && s.pending@[i].0@ == k1;
    let i2 = choose|i: int| 0 <= i < s.pending@.len() && s.pending@[i].0@ == k2;
    lemma_as_map_index(s.pending@, i1);
    lemma_as_map_index(s.pending@, i2);
    assert(s.pending@[i1].1 == id1);
    assert(s.pending@[i2].1 == id2);
    if i1 < i2 {
        assert(s.pending@[i1].1 != s.pending@[i2].1);
    } else {
        assert(s.pending@[i2].1 != s.pending@[i1].1);
    }
}

} // verus!
