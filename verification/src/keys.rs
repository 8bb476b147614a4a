//! `CacheKey` and `CacheValue` instances for the plain types the cache is
//! typically keyed and filled with.

use vstd::prelude::*;

use crate::CacheKey;
use crate::CacheValue;

verus! {

impl CacheKey for u64 {
    fn key_eq(&self, other: &Self) -> (r: bool)
        ensures
            r == (self@ == other@),
    {
        *self == *other
    }

    fn key_clone(&self) -> (r: Self)
        ensures
            r@ == self@,
    {
        *self
    }
}

impl CacheValue for u64 {
    fn value_clone(&self) -> (r: Self)
        ensures
            r@ == self@,
    {
        *self
    }
}

impl CacheKey for usize {
    fn key_eq(&self, other: &Self) -> (r: bool)
        ensures
            r == (self@ == other@),
    {
        *self == *other
    }

    fn key_clone(&self) -> (r: Self)
        ensures
            r@ == self@,
    {
        *self
    }
}

impl CacheValue for usize {
    fn value_clone(&self) -> (r: Self)
        ensures
            r@ == self@,
    {
        *self
    }
}

impl CacheKey for String {
    fn key_eq(&self, other: &Self) -> (r: bool)
        ensures
            r == (self@ == other@),
    {
        self.eq(other)
    }

    fn key_clone(&self) -> (r: Self)
        ensures
            r@ == self@,
    {
        self.clone()
    }
}

impl CacheValue for String {
    fn value_clone(&self) -> (r: Self)
        ensures
            r@ == self@,
    {
        self.clone()
    }
}

} // verus!
