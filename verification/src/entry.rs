//! The unit stored inside a tier: a value together with the byte size that
//! was measured for it at insertion time. The size is never re-measured.

use vstd::prelude::*;

verus! {

/// A cached value plus its measured byte size.
pub struct CacheEntry<V> {
    /// The cached value.
    pub value: V,
    /// The byte size measured for the value when the entry was created.
    pub size: usize,
}

impl<V> CacheEntry<V> {
    /// Wraps a value with its measured size.
    pub fn new(value: V, size: usize) -> (e: CacheEntry<V>)
        ensures
            e.value == value,
            e.size == size,
    {
        CacheEntry { value, size }
    }
}

} // verus!
