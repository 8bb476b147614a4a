//! Sequences of key/value pairs read as finite maps.
//!
//! Every container in this crate keeps its entries in a `Vec` of pairs whose
//! keys are pairwise distinct (measured by the keys' views). These spec
//! functions give such a sequence its meaning as a `Map`, and the lemmas say
//! how that map changes under the `Vec` edits the containers perform.

use vstd::prelude::*;

use crate::CacheKey;
use crate::CacheValue;

verus! {

/// The keys of the pairs are pairwise distinct, measured by their views.
pub open spec fn keys_distinct<K: CacheKey, V: CacheValue>(s: Seq<(K, V)>) -> bool {
    forall|i: int, j: int| 0 <= i < j < s.len() ==> s[i].0@ != s[j].0@
}

/// Some pair of `s` holds a key whose view is `k`.
pub open spec fn has_key<K: CacheKey, V: CacheValue>(s: Seq<(K, V)>, k: <K as View>::V) -> bool {
    exists|i: int| 0 <= i < s.len() && s[i].0@ == k
}

/// The index of the pair holding `k` (meaningful when `has_key(s, k)` and the
/// keys are distinct).
pub open spec fn index_of<K: CacheKey, V: CacheValue>(s: Seq<(K, V)>, k: <K as View>::V) -> int {
    choose|i: int| 0 <= i < s.len() && s[i].0@ == k
}

/// The finite map a pair sequence represents.
pub open spec fn as_map<K: CacheKey, V: CacheValue>(s: Seq<(K, V)>) -> Map<
    <K as View>::V,
    <V as View>::V,
> {
    Map::new(|k: <K as View>::V| has_key(s, k), |k: <K as View>::V| s[index_of(s, k)].1@)
}

/// The key views of the pairs, in sequence order.
pub open spec fn key_views<K: CacheKey, V: CacheValue>(s: Seq<(K, V)>) -> Seq<<K as View>::V> {
    s.map_values(|p: (K, V)| p.0@)
}

/// `key_views` commutes with appending a pair.
pub proof fn lemma_key_views_push<K: CacheKey, V: CacheValue>(s: Seq<(K, V)>, p: (K, V))
    ensures
        key_views(s.push(p)) =~= key_views(s).push(p.0@),
{
}

/// `key_views` commutes with removing a pair.
pub proof fn lemma_key_views_remove<K: CacheKey, V: CacheValue>(s: Seq<(K, V)>, i: int)
    requires
        0 <= i < s.len(),
    ensures
        key_views(s.remove(i)) =~= key_views(s).remove(i),
{
    let a = key_views(s.remove(i));
    let b = key_views(s).remove(i);
    assert(a.len() == b.len());
    assert forall|j: int| 0 <= j < a.len() implies a[j] == b[j] by {
        if j < i {
            assert(s.remove(i)[j] == s[j]);
        } else {
            assert(s.remove(i)[j] == s[j + 1]);
        }
    }
}

/// Finds the entry holding `key`, by scanning the pairs in order.
pub fn find_key<K: CacheKey, V: CacheValue>(entries: &Vec<(K, V)>, key: &K) -> (r: Option<usize>)
    ensures
        match r {
            Some(i) => 0 <= i < entries@.len() && entries@[i as int].0@ == key@,
            None => !has_key(entries@, key@),
        },
{
    let n = entries.len();
    let mut i: usize = 0;
    while i < n
        invariant
            n == entries@.len(),
            i <= n,
            forall|j: int| 0 <= j < i ==> entries@[j].0@ != key@,
        decreases n - i,
    {
        if entries[i].0.key_eq(key) {
            return Some(i);
        }
        i = i + 1;
    }
    None
}

/// With distinct keys, the pair at index `i` is exactly the map entry for its
/// key, and `index_of` finds `i` back.
pub proof fn lemma_as_map_index<K: CacheKey, V: CacheValue>(s: Seq<(K, V)>, i: int)
    requires
        keys_distinct(s),
        0 <= i < s.len(),
    ensures
        has_key(s, s[i].0@),
        index_of(s, s[i].0@) == i,
        as_map(s).dom().contains(s[i].0@),
        as_map(s)[s[i].0@] == s[i].1@,
{
    assert(has_key(s, s[i].0@));
    let j = index_of(s, s[i].0@);
    if j != i {
        if j < i {
            assert(s[j].0@ != s[i].0@);
        } else {
            assert(s[i].0@ != s[j].0@);
        }
    }
}

/// Appending a pair with a fresh key inserts it into the represented map.
pub proof fn lemma_as_map_push<K: CacheKey, V: CacheValue>(s: Seq<(K, V)>, p: (K, V))
    requires
        keys_distinct(s),
        !has_key(s, p.0@),
    ensures
        keys_distinct(s.push(p)),
        as_map(s.push(p)) =~= as_map(s).insert(p.0@, p.1@),
{
    let t = s.push(p);
    assert forall|i: int, j: int| 0 <= i < j < t.len() implies t[i].0@ != t[j].0@ by {
        if j < s.len() {
            assert(s[i].0@ != s[j].0@);
        } else {
            assert(t[j] == p);
            if t[i].0@ == p.0@ {
                assert(s[i].0@ == p.0@);
                assert(has_key(s, p.0@));
            }
        }
    }
    assert forall|k: <K as View>::V| has_key(t, k) == (has_key(s, k) || k == p.0@) by {
        if has_key(t, k) {
            let i = choose|i: int| 0 <= i < t.len() && t[i].0@ == k;
            if i < s.len() {
                assert(has_key(s, k));
            } else {
                assert(t[i] == p);
            }
        }
        if has_key(s, k) {
            let i = choose|i: int| 0 <= i < s.len() && s[i].0@ == k;
            assert(t[i].0@ == k);
            assert(has_key(t, k));
        }
        if k == p.0@ {
            assert(t[s.len() as int].0@ == k);
            assert(has_key(t, k));
        }
    }
    assert forall|k: <K as View>::V| #[trigger] has_key(t, k) implies as_map(t)[k] == as_map(
        s,
    ).insert(p.0@, p.1@)[k] by {
        if k == p.0@ {
            lemma_as_map_index(t, s.len() as int);
        } else {
            let i = index_of(s, k);
            assert(0 <= i < s.len() && s[i].0@ == k);
            assert(t[i].0@ == k);
            lemma_as_map_index(t, i);
            lemma_as_map_index(s, i);
        }
    }
}

/// Removing the pair at index `i` removes its key from the represented map.
pub proof fn lemma_as_map_remove<K: CacheKey, V: CacheValue>(s: Seq<(K, V)>, i: int)
    requires
        keys_distinct(s),
        0 <= i < s.len(),
    ensures
        keys_distinct(s.remove(i)),
        as_map(s.remove(i)) =~= as_map(s).remove(s[i].0@),
{
    let t = s.remove(i);
    assert forall|a: int, b: int| 0 <= a < b < t.len() implies t[a].0@ != t[b].0@ by {
        let a0: int = if a < i {
            a
        } else {
            a + 1
        };
        let b0: int = if b < i {
            b
        } else {
            b + 1
        };
        assert(t[a] == s[a0]);
        assert(t[b] == s[b0]);
        assert(s[a0].0@ != s[b0].0@);
    }
    assert forall|k: <K as View>::V| has_key(t, k) == (has_key(s, k) && k != s[i].0@) by {
        if has_key(t, k) {
            let a = choose|a: int| 0 <= a < t.len() && t[a].0@ == k;
            let a0: int = if a < i {
                a
            } else {
                a + 1
            };
            assert(t[a] == s[a0]);
            assert(has_key(s, k));
            if k == s[i].0@ {
                if a0 < i {
                    assert(s[a0].0@ != s[i].0@);
                } else {
                    assert(s[i].0@ != s[a0].0@);
                }
            }
        }
        if has_key(s, k) && k != s[i].0@ {
            let a0 = choose|a0: int| 0 <= a0 < s.len() && s[a0].0@ == k;
            let a: int = if a0 < i {
                a0
            } else {
                a0 - 1
            };
            assert(t[a] == s[a0]);
            assert(has_key(t, k));
        }
    }
    assert forall|k: <K as View>::V| #[trigger] has_key(t, k) implies as_map(t)[k] == as_map(s)[k] by {
        let a = index_of(t, k);
        assert(0 <= a < t.len() && t[a].0@ == k);
        let a0: int = if a < i {
            a
        } else {
            a + 1
        };
        assert(t[a] == s[a0]);
        lemma_as_map_index(t, a);
        lemma_as_map_index(s, a0);
    }
}

} // verus!
