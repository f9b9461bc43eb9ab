//! A generic backend interface for keyed caches.

use vstd::prelude::*;

verus! {

/// Backend that keeps and manages stored entries.
///
/// A backend may remove entries at any point, for instance under memory
/// pressure or expiration, so a read after a write can still find nothing;
/// no contract promises retention.
pub trait CacheBackend: Sized {
    /// Cache key.
    type K;

    /// Cached value.
    type V;

    /// The value stored under the key, if it exists.
    fn get(&mut self, k: &Self::K) -> Option<Self::V>;

    /// Stores a value under the key; overwriting an existing key is
    /// allowed.
    fn set(&mut self, k: Self::K, v: Self::V);

    /// Removes the key; removing an absent key is allowed.
    fn remove(&mut self, k: &Self::K);
}

} // verus!
