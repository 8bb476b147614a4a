//! The tiered cache: probe the tiers fastest-first, fall back to the loader on
//! a full miss, and backfill every faster tier with the value found.

use vstd::prelude::*;

use crate::AsyncCache;
use crate::CacheError;
use crate::CacheKey;
use crate::CacheValue;
use crate::LoadError;
use crate::TierError;
use crate::layer::Layer;

verus! {

/// The index of the first tier at or after `i` whose contents hold `k`;
/// `s.len()` if none does.
pub open spec fn first_hit_from<K: CacheKey, V: CacheValue>(
    s: Seq<Layer<K, V>>,
    k: <K as View>::V,
    i: int,
) -> int
    decreases s.len() - i,
{
    if i < 0 || i >= s.len() {
        s.len() as int
    } else if s[i].contents().dom().contains(k) {
        i
    } else {
        first_hit_from(s, k, i + 1)
    }
}

/// The index of the first tier whose contents hold `k`; `s.len()` if none does.
pub open spec fn first_hit<K: CacheKey, V: CacheValue>(
    s: Seq<Layer<K, V>>,
    k: <K as View>::V,
) -> int {
    first_hit_from(s, k, 0)
}

proof fn lemma_first_hit_from_is<K: CacheKey, V: CacheValue>(
    s: Seq<Layer<K, V>>,
    k: <K as View>::V,
    i: int,
    h: int,
)
    requires
        0 <= i <= h <= s.len(),
        forall|j: int| i <= j < h ==> !(#[trigger] s[j]).contents().dom().contains(k),
        h < s.len() ==> s[h].contents().dom().contains(k),
    ensures
        first_hit_from(s, k, i) == h,
    decreases h - i,
{
    if i < h {
        lemma_first_hit_from_is(s, k, i + 1, h);
    }
}

/// Tiers before `h` have been backfilled with `k → v`: each storing tier now
/// holds the pair and gained no other entry; each absorbing tier is unchanged.
pub open spec fn backfilled<K: CacheKey, V: CacheValue>(
    pre: Seq<Layer<K, V>>,
    post: Seq<Layer<K, V>>,
    k: <K as View>::V,
    v: <V as View>::V,
    h: int,
) -> bool {
    forall|j: int|
        0 <= j < h ==> {
            &&& (!(#[trigger] pre[j]).absorbs() ==> post[j].contents().contains_pair(k, v))
            &&& (pre[j].absorbs() ==> post[j].contents() == pre[j].contents())
            &&& forall|k2: <K as View>::V|
                k2 != k && #[trigger] post[j].contents().dom().contains(k2)
                    ==> pre[j].contents().contains_pair(k2, post[j].contents()[k2])
        }
}

/// What one `get` did: probed the tiers in order up to the first hit (or the
/// loader below them all), returned exactly the value found there, and
/// backfilled every faster tier — misses, loader absences and loader failures
/// leave every tier's contents unchanged, so absence is never cached.
pub open spec fn cache_get_post<
    K: CacheKey,
    V: CacheValue,
    F: Fn(&K) -> Result<Option<V>, LoadError>,
>(pre: Cache<K, V, F>, post: Cache<K, V, F>, key: &K, r: Result<Option<V>, CacheError>) -> bool {
    let s = pre.tiers();
    let t = post.tiers();
    let n = s.len() as int;
    let h = first_hit(s, key@);
    &&& t.len() == n
    &&& post.loader() == pre.loader()
    &&& post.coalesce_requested() == pre.coalesce_requested()
    &&& forall|j: int| 0 <= j < n ==> (#[trigger] t[j]).absorbs() == s[j].absorbs()
    &&& match r {
        Ok(ov) => {
            if h < n {
                &&& ov matches Some(v) && v@ == s[h].contents()[key@]
                &&& backfilled(s, t, key@, s[h].contents()[key@], h)
                &&& forall|j: int| h <= j < n ==> (#[trigger] t[j]).contents() == s[j].contents()
            } else {
                &&& call_ensures(pre.loader(), (key,), Ok::<Option<V>, LoadError>(ov))
                &&& match ov {
                    Some(v) => backfilled(s, t, key@, v@, n),
                    None => forall|j: int|
                        0 <= j < n ==> (#[trigger] t[j]).contents() == s[j].contents(),
                }
            }
        },
        Err(e) => {
            &&& e == CacheError::LoadFailure
            &&& h == n
            &&& exists|le: LoadError|
                call_ensures(pre.loader(), (key,), Err::<Option<V>, LoadError>(le))
            &&& forall|j: int| 0 <= j < n ==> (#[trigger] t[j]).contents() == s[j].contents()
        },
    }
}

proof fn lemma_first_hit_from_bounds<K: CacheKey, V: CacheValue>(
    s: Seq<Layer<K, V>>,
    k: <K as View>::V,
    i: int,
)
    requires
        0 <= i <= s.len(),
    ensures
        i <= first_hit_from(s, k, i) <= s.len(),
    decreases s.len() - i,
{
    if i < s.len() {
        if !s[i].contents().dom().contains(k) {
            lemma_first_hit_from_bounds(s, k, i + 1);
        }
    }
}

proof fn lemma_first_hit_from_congruent<K: CacheKey, V: CacheValue>(
    s: Seq<Layer<K, V>>,
    t: Seq<Layer<K, V>>,
    k: <K as View>::V,
    i: int,
)
    requires
        t.len() == s.len(),
        forall|j: int| 0 <= j < s.len() ==> (#[trigger] t[j]).contents() == s[j].contents(),
        0 <= i <= s.len(),
    ensures
        first_hit_from(t, k, i) == first_hit_from(s, k, i),
    decreases s.len() - i,
{
    if i < s.len() {
        if !s[i].contents().dom().contains(k) {
            lemma_first_hit_from_congruent(s, t, k, i + 1);
        }
    }
}

/// Tier ordering: with a faster storing tier that is empty and a slower tier
/// that holds the key, `get` returns the slower tier's value, and afterwards
/// the faster tier holds that pair too — backfill reaches faster tiers only,
/// and the hit tier keeps what it had.
pub proof fn lemma_tier_ordering<
    K: CacheKey,
    V: CacheValue,
    F: Fn(&K) -> Result<Option<V>, LoadError>,
>(pre: Cache<K, V, F>, post: Cache<K, V, F>, key: &K, r: Result<Option<V>, CacheError>)
    requires
        cache_get_post(pre, post, key, r),
        pre.tiers().len() == 2,
        pre.tiers()[0].contents() == Map::<<K as View>::V, <V as View>::V>::empty(),
        !pre.tiers()[0].absorbs(),
        pre.tiers()[1].contents().dom().contains(key@),
    ensures
        r matches Ok(Some(v)) && v@ == pre.tiers()[1].contents().index(key@),
        post.tiers()[0].contents().contains_pair(key@, pre.tiers()[1].contents().index(key@)),
        post.tiers()[1].contents() == pre.tiers()[1].contents(),
{
    assert(first_hit_from(pre.tiers(), key@, 1) == 1);
    assert(first_hit(pre.tiers(), key@) == 1);
}

/// No negative caching: a `get` that found no value anywhere consulted the
/// loader and changed no tier, so a second `get` for the same key misses every
/// tier again and its outcome is again the loader's — absence is never served
/// from a tier.
pub proof fn lemma_no_negative_caching<
    K: CacheKey,
    V: CacheValue,
    F: Fn(&K) -> Result<Option<V>, LoadError>,
>(
    pre: Cache<K, V, F>,
    mid: Cache<K, V, F>,
    post: Cache<K, V, F>,
    key: &K,
    r2: Result<Option<V>, CacheError>,
)
    requires
        cache_get_post(pre, mid, key, Ok(None)),
        cache_get_post(mid, post, key, r2),
    ensures
        call_ensures(pre.loader(), (key,), Ok::<Option<V>, LoadError>(None)),
        first_hit(mid.tiers(), key@) == mid.tiers().len(),
        match r2 {
            Ok(ov) => call_ensures(mid.loader(), (key,), Ok::<Option<V>, LoadError>(ov)),
            Err(e) => {
                &&& e == CacheError::LoadFailure
                &&& exists|le: LoadError|
                    call_ensures(mid.loader(), (key,), Err::<Option<V>, LoadError>(le))
            },
        },
{
    let s = pre.tiers();
    let h = first_hit(s, key@);
    lemma_first_hit_from_bounds(s, key@, 0);
    assert(h == s.len());
    lemma_first_hit_from_congruent(s, mid.tiers(), key@, 0);
}

/// Backfill failure tolerance: what `get` hands the caller is fixed by the
/// tier hit alone. Two runs from the same pre-state that left the tiers in
/// different states — as backfill writes that failed, were absorbed, or
/// evicted differently would — still return the same value, the hit tier's.
pub proof fn lemma_backfill_tolerance<
    K: CacheKey,
    V: CacheValue,
    F: Fn(&K) -> Result<Option<V>, LoadError>,
>(
    pre: Cache<K, V, F>,
    post1: Cache<K, V, F>,
    post2: Cache<K, V, F>,
    key: &K,
    r1: Result<Option<V>, CacheError>,
    r2: Result<Option<V>, CacheError>,
)
    requires
        cache_get_post(pre, post1, key, r1),
        cache_get_post(pre, post2, key, r2),
        first_hit(pre.tiers(), key@) < pre.tiers().len(),
    ensures
        crate::outcome_view(r1) == crate::outcome_view(r2),
        r1 matches Ok(Some(v)) && v@ == pre.tiers()[first_hit(pre.tiers(), key@)].contents().index(
            key@,
        ),
{
}

/// The tiered cache's capability contract is `cache_get_post`: what the
/// `AsyncCache` trait states abstractly of a `Cache` resolves to it.
pub proof fn lemma_cache_get_contract<
    K: CacheKey,
    V: CacheValue,
    F: Fn(&K) -> Result<Option<V>, LoadError>,
>(pre: Cache<K, V, F>, post: Cache<K, V, F>, key: &K, r: Result<Option<V>, CacheError>)
    ensures
        post.get_ens(pre, key, r) == cache_get_post(pre, post, key, r),
        pre.wf() == {
            &&& forall|i: int| 0 <= i < pre.tiers().len() ==> (#[trigger] pre.tiers()[i]).wf()
            &&& forall|k: &K| call_requires(pre.loader(), (k,))
        },
{
}

/// A layered read-through cache: an ordered tier chain in front of a loader.
#[verifier::reject_recursive_types(K)]
#[verifier::reject_recursive_types(V)]
pub struct Cache<K: CacheKey, V: CacheValue, F: Fn(&K) -> Result<Option<V>, LoadError>> {
    layers: Vec<Layer<K, V>>,
    coalesce: Option<bool>,
    loading_fn: F,
}

/// Probes the tiers in order; stops at the first hit. Reading never changes
/// any tier's contents.
fn probe_tiers<K: CacheKey, V: CacheValue>(layers: &mut Vec<Layer<K, V>>, key: &K) -> (r: Result<
    (Option<V>, usize),
    CacheError,
>)
    requires
        forall|j: int| 0 <= j < old(layers)@.len() ==> (#[trigger] old(layers)@[j]).wf(),
    ensures
        final(layers)@.len() == old(layers)@.len(),
        forall|j: int| 0 <= j < old(layers)@.len() ==> (#[trigger] final(layers)@[j]).wf(),
        forall|j: int|
            0 <= j < old(layers)@.len() ==> (#[trigger] final(layers)@[j]).contents() == old(
                layers,
            )@[j].contents(),
        forall|j: int|
            0 <= j < old(layers)@.len() ==> (#[trigger] final(layers)@[j]).absorbs() == old(
                layers,
            )@[j].absorbs(),
        match r {
            Ok(p) => {
                &&& 0 <= p.1 <= old(layers)@.len()
                &&& forall|j: int|
                    0 <= j < p.1 ==> !(#[trigger] old(layers)@[j]).contents().dom().contains(key@)
                &&& match p.0 {
                    Some(v) => p.1 < old(layers)@.len() && old(
                        layers,
                    )@[p.1 as int].contents().contains_pair(key@, v@),
                    None => p.1 == old(layers)@.len(),
                }
            },
            Err(_) => false,
        },
{
    let n = layers.len();
    let mut i: usize = 0;
    while i < n
        invariant
            n == layers@.len(),
            old(layers)@.len() == n,
            i <= n,
            forall|j: int| 0 <= j < n ==> (#[trigger] layers@[j]).wf(),
            forall|j: int|
                0 <= j < n ==> (#[trigger] layers@[j]).contents() == old(layers)@[j].contents(),
            forall|j: int|
                0 <= j < n ==> (#[trigger] layers@[j]).absorbs() == old(layers)@[j].absorbs(),
            forall|j: int| 0 <= j < i ==> !(#[trigger] old(layers)@[j]).contents().dom().contains(key@),
        decreases n - i,
    {
        let probed = layers[i].get(key);
        match probed {
            Ok(Some(v)) => {
                return Ok((Some(v), i));
            },
            Ok(None) => {},
            Err(_) => {
                // The built-in backends never malfunction; a malfunctioning
                // tier's failure would surface to the caller, not be masked
                // as a miss.
                return Err(CacheError::TierFailure);
            },
        }
        i = i + 1;
    }
    Ok((None, n))
}

/// Writes `key → value` into every tier before `h`: promotes the value into
/// each faster tier that missed. A failing put is non-fatal: the remaining
/// tiers are still filled and the caller still gets the value.
fn backfill_tiers<K: CacheKey, V: CacheValue>(
    layers: &mut Vec<Layer<K, V>>,
    key: &K,
    value: &V,
    h: usize,
    Ghost(base): Ghost<Seq<Layer<K, V>>>,
)
    requires
        forall|j: int| 0 <= j < old(layers)@.len() ==> (#[trigger] old(layers)@[j]).wf(),
        h <= old(layers)@.len(),
        base.len() == old(layers)@.len(),
        forall|j: int|
            0 <= j < base.len() ==> (#[trigger] old(layers)@[j]).contents() == base[j].contents(),
        forall|j: int|
            0 <= j < base.len() ==> (#[trigger] old(layers)@[j]).absorbs() == base[j].absorbs(),
    ensures
        final(layers)@.len() == base.len(),
        forall|j: int| 0 <= j < base.len() ==> (#[trigger] final(layers)@[j]).wf(),
        forall|j: int|
            0 <= j < base.len() ==> (#[trigger] final(layers)@[j]).absorbs() == base[j].absorbs(),
        backfilled(base, final(layers)@, key@, value@, h as int),
        forall|j: int|
            h <= j < base.len() ==> (#[trigger] final(layers)@[j]).contents() == base[j].contents(),
{
    let mut j: usize = 0;
    while j < h
        invariant
            h <= layers@.len(),
            layers@.len() == base.len(),
            j <= h,
            forall|jj: int| 0 <= jj < layers@.len() ==> (#[trigger] layers@[jj]).wf(),
            forall|jj: int|
                0 <= jj < layers@.len() ==> (#[trigger] layers@[jj]).absorbs()
                    == base[jj].absorbs(),
            backfilled(base, layers@, key@, value@, j as int),
            forall|jj: int|
                j <= jj < layers@.len() ==> (#[trigger] layers@[jj]).contents()
                    == base[jj].contents(),
        decreases h - j,
    {
        let ghost before = layers@;
        let filled = layers[j].put(key, value);
        match filled {
            Ok(_) => {},
            Err(_) => {},
        }
        proof {
            assert forall|jj: int|
                0 <= jj < j + 1 implies {
                    &&& (!(#[trigger] base[jj]).absorbs() ==> layers@[jj].contents().contains_pair(
                        key@,
                        value@,
                    ))
                    &&& (base[jj].absorbs() ==> layers@[jj].contents() == base[jj].contents())
                    &&& forall|k2: <K as View>::V|
                        k2 != key@ && #[trigger] layers@[jj].contents().dom().contains(k2)
                            ==> base[jj].contents().contains_pair(k2, layers@[jj].contents()[k2])
                } by {
                if jj < j {
                    assert(layers@[jj] == before[jj]);
                } else {
                    assert(before[jj].contents() == base[jj].contents());
                }
            }
        }
        j = j + 1;
    }
}

impl<K: CacheKey, V: CacheValue, F: Fn(&K) -> Result<Option<V>, LoadError>> Cache<K, V, F> {
    /// The ordered tier chain, fastest first.
    pub closed spec fn tiers(&self) -> Seq<Layer<K, V>> {
        self.layers@
    }

    /// The loader invoked on a full miss.
    pub closed spec fn loader(&self) -> F {
        self.loading_fn
    }

    /// Whether the builder asked for the coalescing wrapper.
    pub closed spec fn coalesce_requested(&self) -> bool {
        self.coalesce == Some(true)
    }

    pub fn new(layers: Vec<Layer<K, V>>, coalesce: Option<bool>, loading_fn: F) -> (r: Self)
        requires
            forall|i: int| 0 <= i < layers@.len() ==> (#[trigger] layers@[i]).wf(),
            forall|k: &K| call_requires(loading_fn, (k,)),
        ensures
            r.wf(),
            r.tiers() == layers@,
            r.loader() == loading_fn,
            r.coalesce_requested() == (coalesce == Some(true)),
    {
        Cache { layers, coalesce, loading_fn }
    }

    /// Whether construction asked for the coalescing wrapper around this cache.
    pub fn is_coalescing(&self) -> (r: bool)
        ensures
            r == self.coalesce_requested(),
    {
        match self.coalesce {
            Some(true) => true,
            _ => false,
        }
    }

    /// Reads one tier directly, with no fallback and no backfill: what that
    /// tier alone holds for the key. A bounded tier's recency bookkeeping
    /// moves, as on any read; no tier's contents change.
    pub fn peek_tier(&mut self, i: usize, key: &K) -> (r: Result<Option<V>, TierError>)
        requires
            old(self).wf(),
            i < old(self).tiers().len(),
        ensures
            final(self).wf(),
            final(self).tiers().len() == old(self).tiers().len(),
            final(self).loader() == old(self).loader(),
            final(self).coalesce_requested() == old(self).coalesce_requested(),
            forall|j: int|
                0 <= j < old(self).tiers().len() ==> (#[trigger] final(self).tiers()[j]).contents()
                    == old(self).tiers()[j].contents(),
            forall|j: int|
                0 <= j < old(self).tiers().len() ==> (#[trigger] final(self).tiers()[j]).absorbs()
                    == old(self).tiers()[j].absorbs(),
            match r {
                Ok(Some(v)) => old(self).tiers()[i as int].contents().contains_pair(key@, v@),
                Ok(None) => !old(self).tiers()[i as int].contents().dom().contains(key@),
                Err(_) => false,
            },
    {
        proof {
            assert(old(self).tiers()[i as int].wf());
        }
        let r = self.layers[i].get(key);
        proof {
            assert forall|j: int|
                0 <= j < self.tiers().len() implies (#[trigger] self.tiers()[j]).wf() by {
                if j != i {
                    assert(old(self).tiers()[j].wf());
                }
            }
            assert forall|k: &K| call_requires(self.loader(), (k,)) by {
                assert(call_requires(old(self).loader(), (k,)));
            }
        }
        r
    }

    /// Satisfies `get(key)` by probing the tiers in order; on a full miss the
    /// loader runs, and its value — never its absence, never a failure — is
    /// backfilled into every faster tier (see `cache_get_post`).
    pub fn get(&mut self, key: &K) -> (r: Result<Option<V>, CacheError>)
        requires
            old(self).wf(),
        ensures
            final(self).wf(),
            cache_get_post(*old(self), *final(self), key, r),
    {
        let ghost s0 = self.layers@;
        proof {
            assert forall|j: int| 0 <= j < s0.len() implies (#[trigger] s0[j]).wf() by {
                assert(old(self).tiers()[j].wf());
            }
        }
        let n = self.layers.len();
        let probed = probe_tiers(&mut self.layers, key);
        let r: Result<Option<V>, CacheError> = match probed {
            Err(e) => {
                // A tier's failure would surface to the caller here; the
                // built-in backends never fail, and their contracts prove it.
                proof {
                    assert(false);
                }
                Err(e)
            },
            Ok((Some(v), h)) => {
                proof {
                    lemma_first_hit_from_is(s0, key@, 0, h as int);
                    assert(first_hit(s0, key@) == h as int);
                    assert(s0[h as int].contents().contains_pair(key@, v@));
                    assert(v@ == s0[h as int].contents()[key@]);
                }
                backfill_tiers(&mut self.layers, key, &v, h, Ghost(s0));
                proof {
                    assert(backfilled(s0, self.layers@, key@, v@, h as int));
                    assert(forall|j: int|
                        h as int <= j < s0.len() ==> (#[trigger] self.layers@[j]).contents()
                            == s0[j].contents());
                }
                Ok(Some(v))
            },
            Ok((None, _h)) => {
                proof {
                    lemma_first_hit_from_is(s0, key@, 0, n as int);
                    assert(first_hit(s0, key@) == n as int);
                    assert(call_requires(old(self).loader(), (key,)));
                    assert(self.loading_fn == old(self).loader());
                }
                let loaded = (self.loading_fn)(key);
                match loaded {
                    Ok(Some(v)) => {
                        proof {
                            assert(call_ensures(
                                old(self).loader(),
                                (key,),
                                Ok::<Option<V>, LoadError>(Some(v)),
                            ));
                        }
                        backfill_tiers(&mut self.layers, key, &v, n, Ghost(s0));
                        proof {
                            assert(backfilled(s0, self.layers@, key@, v@, n as int));
                        }
                        Ok(Some(v))
                    },
                    Ok(None) => {
                        proof {
                            assert(call_ensures(
                                old(self).loader(),
                                (key,),
                                Ok::<Option<V>, LoadError>(None),
                            ));
                        }
                        Ok(None)
                    },
                    Err(le) => {
                        proof {
                            assert(call_ensures(
                                old(self).loader(),
                                (key,),
                                Err::<Option<V>, LoadError>(le),
                            ));
                        }
                        Err(CacheError::LoadFailure)
                    },
                }
            },
        };
        proof {
            assert forall|i: int|
                0 <= i < self.tiers().len() implies (#[trigger] self.tiers()[i]).wf() by {
                assert(self.layers@[i].wf());
            }
            assert(self.loading_fn == old(self).loading_fn);
            assert forall|k: &K| call_requires(self.loader(), (k,)) by {
                assert(call_requires(old(self).loader(), (k,)));
            }
            assert(self.wf());
        }
        r
    }
}

impl<K: CacheKey, V: CacheValue, F: Fn(&K) -> Result<Option<V>, LoadError>> AsyncCache for Cache<
    K,
    V,
    F,
> {
    type K = K;

    type V = V;

    open spec fn wf(&self) -> bool {
        &&& forall|i: int| 0 <= i < self.tiers().len() ==> (#[trigger] self.tiers()[i]).wf()
        &&& forall|k: &K| call_requires(self.loader(), (k,))
    }

    open spec fn get_ens(&self, pre: Self, key: &K, r: Result<Option<V>, CacheError>) -> bool {
        cache_get_post(pre, *self, key, r)
    }

    fn get(&mut self, key: &K) -> (r: Result<Option<V>, CacheError>) {
        Cache::get(self, key)
    }
}

} // verus!
