//! The cache of record names that are known to be proven.
//!
//! The cache is a `quick_cache::sync::Cache`: bounded, and free to drop any
//! name when another one is added.

use vstd::prelude::*;
use crate::config::CACHE_SIZE;
use crate::crypto;

verus! {

/// A bounded cache of record names: a `quick_cache::sync::Cache` with the
/// names as keys. What it holds is known only through the trusted
/// functions below.
#[verifier::external_body]
pub struct ProvenCache {
    names: quick_cache::sync::Cache<crypto::Hash, ()>,
}

/// The names that a cache holds: the keys for which `Cache::get` finds an
/// entry.
pub uninterp spec fn cached_names(cache: ProvenCache) -> Set<crypto::Hash>;

impl View for ProvenCache {
    type V = Set<crypto::Hash>;

    open spec fn view(&self) -> Set<crypto::Hash> {
        cached_names(*self)
    }
}

impl ProvenCache {
    /// Trusted: `Cache::new` returns a cache that holds nothing.
    #[verifier::external_body]
    pub(crate) fn with_capacity(items_capacity: usize) -> (cache: ProvenCache)
        requires
            items_capacity <= 0x100_0000,
        ensures
            cached_names(cache) == Set::<crypto::Hash>::empty(),
    {
        ProvenCache { names: quick_cache::sync::Cache::new(items_capacity) }
    }

    /// An empty cache for `CACHE_SIZE` names.
    pub fn new() -> (cache: ProvenCache)
        ensures
            cache@ == Set::<crypto::Hash>::empty(),
    {
        ProvenCache::with_capacity(CACHE_SIZE)
    }

    /// Whether the cache holds `name`.
    pub fn contains(&self, name: &crypto::Hash) -> (held: bool)
        ensures
            held == self@.contains(*name),
    {
        self.holds(name)
    }

    /// Adds each of `names`. Afterwards the cache holds no name but those
    /// it held before and those of `names`.
    pub fn add_all(&mut self, names: &Vec<crypto::Hash>)
        ensures
            final(self)@.subset_of(old(self)@.union(names@.to_set())),
    {
        let mut i: usize = 0;
        while i < names.len()
            invariant
                i <= names.len(),
                self@.subset_of(old(self)@.union(names@.to_set())),
            decreases names.len() - i,
        {
            let ghost before = self@;
            self.add(names[i]);
            assert(names@.to_set().contains(names@[i as int]));
            assert(self@.subset_of(before.insert(names@[i as int])));
            i += 1;
        }
    }

    /// Trusted: `Cache::get` finds `name` if and only if the cache holds
    /// it, and leaves what the cache holds as it is.
    #[verifier::external_body]
    pub(crate) fn holds(&self, name: &crypto::Hash) -> (held: bool)
        ensures
            held == cached_names(*self).contains(*name),
    {
        self.names.get(name).is_some()
    }

    /// Trusted: `Cache::insert` adds `name`. To make room the cache may
    /// drop names, the new one among them, so afterwards it holds no name
    /// but those it held before and `name`.
    #[verifier::external_body]
    pub(crate) fn add(&mut self, name: crypto::Hash)
        ensures
            cached_names(*final(self)).subset_of(cached_names(*old(self)).insert(name)),
    {
        self.names.insert(name, ());
    }
}

} // verus!
