//! The built-in tier backends: an unbounded store safe to share, and a
//! capacity-bounded store that evicts its least recently used entry.

use vstd::prelude::*;

use crate::CacheKey;
use crate::CacheValue;
use crate::kvseq::as_map;
use crate::kvseq::find_key;
use crate::kvseq::has_key;
use crate::kvseq::key_views;
use crate::kvseq::keys_distinct;
use crate::kvseq::lemma_as_map_index;
use crate::kvseq::lemma_as_map_push;
use crate::kvseq::lemma_as_map_remove;
use crate::kvseq::lemma_key_views_push;
use crate::kvseq::lemma_key_views_remove;

verus! {

/// An unbounded key→value store; the model of a hash-indexed cache store that
/// may be read and written concurrently (synchronisation lives outside the
/// verified core).
pub struct FlatStore<K: CacheKey, V: CacheValue> {
    entries: Vec<(K, V)>,
}

impl<K: CacheKey, V: CacheValue> FlatStore<K, V> {
    /// Well-formed: at most one entry per key.
    pub closed spec fn wf(&self) -> bool {
        keys_distinct(self.entries@)
    }

    /// The key→value mapping held.
    pub closed spec fn contents(&self) -> Map<<K as View>::V, <V as View>::V> {
        as_map(self.entries@)
    }

    pub fn new() -> (r: Self)
        ensures
            r.wf(),
            r.contents() == Map::<<K as View>::V, <V as View>::V>::empty(),
    {
        let r = FlatStore { entries: Vec::new() };
        proof {
            assert(r.contents() =~= Map::<<K as View>::V, <V as View>::V>::empty());
        }
        r
    }

    /// Looks the key up; reports exactly the stored value, or absence.
    pub fn get(&self, key: &K) -> (r: Option<V>)
        requires
            self.wf(),
        ensures
            match r {
                Some(v) => self.contents().contains_pair(key@, v@),
                None => !self.contents().dom().contains(key@),
            },
    {
        match find_key(&self.entries, key) {
            Some(i) => {
                proof {
                    lemma_as_map_index(self.entries@, i as int);
                }
                Some(self.entries[i].1.value_clone())
            },
            None => None,
        }
    }

    /// Inserts the pair, replacing any entry the key already had.
    pub fn put(&mut self, key: &K, value: &V)
        requires
            old(self).wf(),
        ensures
            final(self).wf(),
            final(self).contents() == old(self).contents().insert(key@, value@),
    {
        let kc = key.key_clone();
        let vc = value.value_clone();
        match find_key(&self.entries, key) {
            Some(i) => {
                proof {
                    lemma_as_map_index(self.entries@, i as int);
                    lemma_as_map_remove(self.entries@, i as int);
                }
                let ghost mid = old(self).contents().remove(key@);
                self.entries.remove(i);
                proof {
                    lemma_as_map_push(self.entries@, (kc, vc));
                    assert(as_map(self.entries@.push((kc, vc))) =~= old(self).contents().insert(
                        key@,
                        value@,
                    ));
                }
                self.entries.push((kc, vc));
            },
            None => {
                proof {
                    lemma_as_map_push(self.entries@, (kc, vc));
                    assert(as_map(self.entries@.push((kc, vc))) =~= old(self).contents().insert(
                        key@,
                        value@,
                    ));
                }
                self.entries.push((kc, vc));
            },
        }
    }
}

/// A bounded key→value store with recency eviction: when a fresh key arrives
/// at capacity, the least recently used entry makes room for it.
pub struct RecencyStore<K: CacheKey, V: CacheValue> {
    /// Least recently used first, most recently used last.
    entries: Vec<(K, V)>,
    cap: usize,
}

impl<K: CacheKey, V: CacheValue> RecencyStore<K, V> {
    /// Well-formed: at most one entry per key, never more entries than the
    /// (positive) capacity.
    pub closed spec fn wf(&self) -> bool {
        &&& keys_distinct(self.entries@)
        &&& 1 <= self.cap
        &&& self.entries@.len() <= self.cap
    }

    /// The key→value mapping held.
    pub closed spec fn contents(&self) -> Map<<K as View>::V, <V as View>::V> {
        as_map(self.entries@)
    }

    /// The keys held, least recently used first.
    pub closed spec fn order(&self) -> Seq<<K as View>::V> {
        key_views(self.entries@)
    }

    /// The fixed capacity.
    pub closed spec fn capacity(&self) -> int {
        self.cap as int
    }

    pub fn new(cap: usize) -> (r: Self)
        requires
            cap >= 1,
        ensures
            r.wf(),
            r.contents() == Map::<<K as View>::V, <V as View>::V>::empty(),
            r.order() == Seq::<<K as View>::V>::empty(),
            r.capacity() == cap,
    {
        let r = RecencyStore { entries: Vec::new(), cap };
        proof {
            assert(r.contents() =~= Map::<<K as View>::V, <V as View>::V>::empty());
            assert(r.order() =~= Seq::<<K as View>::V>::empty());
        }
        r
    }

    /// Looks the key up. A hit is freshly used: its key moves to the most
    /// recently used end; the mapping itself never changes.
    pub fn get(&mut self, key: &K) -> (r: Option<V>)
        requires
            old(self).wf(),
        ensures
            final(self).wf(),
            final(self).contents() == old(self).contents(),
            final(self).capacity() == old(self).capacity(),
            match r {
                Some(v) => {
                    &&& old(self).contents().contains_pair(key@, v@)
                    &&& final(self).order() == old(self).order().remove(
                        old(self).order().index_of(key@),
                    ).push(key@)
                },
                None => {
                    &&& !old(self).contents().dom().contains(key@)
                    &&& final(self).order() == old(self).order()
                },
            },
    {
        match find_key(&self.entries, key) {
            Some(i) => {
                proof {
                    lemma_as_map_index(self.entries@, i as int);
                    lemma_as_map_remove(self.entries@, i as int);
                    lemma_key_views_remove::<K, V>(self.entries@, i as int);
                    // `index_of` picks this very index: key views are distinct.
                    assert(old(self).order()[i as int] == key@);
                    let j = old(self).order().index_of(key@);
                    assert(0 <= j < old(self).order().len() && old(self).order()[j] == key@);
                    if j != i {
                        lemma_as_map_index(self.entries@, j);
                    }
                }
                let p = self.entries.remove(i);
                let value = p.1.value_clone();
                proof {
                    lemma_as_map_push(self.entries@, p);
                    assert(as_map(self.entries@.push(p)) =~= as_map(old(self).entries@));
                    lemma_key_views_push(self.entries@, p);
                    assert(key_views(self.entries@.push(p)) =~= old(self).order().remove(
                        i as int,
                    ).push(key@));
                }
                self.entries.push(p);
                Some(value)
            },
            None => None,
        }
    }

    /// Inserts the pair, which becomes the most recently used. A key already
    /// held is updated in place; a fresh key at capacity evicts the least
    /// recently used entry, the head of `order()`.
    pub fn put(&mut self, key: &K, value: &V)
        requires
            old(self).wf(),
        ensures
            final(self).wf(),
            final(self).capacity() == old(self).capacity(),
            final(self).contents().contains_pair(key@, value@),
            if old(self).contents().dom().contains(key@) {
                &&& final(self).contents() == old(self).contents().insert(key@, value@)
                &&& final(self).order() == old(self).order().remove(
                    old(self).order().index_of(key@),
                ).push(key@)
            } else if old(self).order().len() < old(self).capacity() {
                &&& final(self).contents() == old(self).contents().insert(key@, value@)
                &&& final(self).order() == old(self).order().push(key@)
            } else {
                &&& final(self).contents() == old(self).contents().remove(
                    old(self).order()[0],
                ).insert(key@, value@)
                &&& final(self).order() == old(self).order().remove(0).push(key@)
            },
    {
        let kc = key.key_clone();
        let vc = value.value_clone();
        match find_key(&self.entries, key) {
            Some(i) => {
                proof {
                    lemma_as_map_index(self.entries@, i as int);
                    lemma_as_map_remove(self.entries@, i as int);
                    lemma_key_views_remove::<K, V>(self.entries@, i as int);
                    assert(old(self).order()[i as int] == key@);
                    let j = old(self).order().index_of(key@);
                    assert(0 <= j < old(self).order().len() && old(self).order()[j] == key@);
                    if j != i {
                        lemma_as_map_index(self.entries@, j);
                    }
                }
                self.entries.remove(i);
                proof {
                    lemma_as_map_push(self.entries@, (kc, vc));
                    assert(as_map(self.entries@.push((kc, vc))) =~= old(self).contents().insert(
                        key@,
                        value@,
                    ));
                    lemma_key_views_push(self.entries@, (kc, vc));
                    assert(key_views(self.entries@.push((kc, vc))) =~= old(self).order().remove(
                        i as int,
                    ).push(key@));
                }
                self.entries.push((kc, vc));
            },
            None => {
                if self.entries.len() == self.cap {
                    proof {
                        lemma_as_map_index(self.entries@, 0);
                        lemma_as_map_remove(self.entries@, 0);
                        lemma_key_views_remove::<K, V>(self.entries@, 0);
                        assert(old(self).order()[0] == old(self).entries@[0].0@);
                    }
                    self.entries.remove(0);
                }
                proof {
                    lemma_as_map_push(self.entries@, (kc, vc));
                    lemma_key_views_push(self.entries@, (kc, vc));
                    if old(self).entries@.len() == old(self).capacity() {
                        assert(as_map(self.entries@.push((kc, vc))) =~= old(
                            self,
                        ).contents().remove(old(self).order()[0]).insert(key@, value@));
                        assert(key_views(self.entries@.push((kc, vc))) =~= old(
                            self,
                        ).order().remove(0).push(key@));
                    } else {
                        assert(as_map(self.entries@.push((kc, vc))) =~= old(
                            self,
                        ).contents().insert(key@, value@));
                        assert(key_views(self.entries@.push((kc, vc))) =~= old(self).order().push(
                            key@,
                        ));
                    }
                }
                self.entries.push((kc, vc));
            },
        }
    }

    /// How many entries are held.
    pub fn len(&self) -> (r: usize)
        ensures
            r == self.order().len(),
    {
        self.entries.len()
    }
}

} // verus!
