//! The operations on the page caches.
//!
//! A page cache is an `FnvHashMap` from virtual page addresses to physical page
//! addresses. Its view is the mathematical map it holds. What [`lookup`] and
//! [`remember`] promise of it is taken on trust: `FnvHasher` hashes equal keys
//! alike and `u64` keys are compared by value, so the standard library's
//! `HashMap` behaves as a map.
use fnv::FnvHashMap;
use vstd::prelude::*;

verus! {

/// The hasher of the `fnv` crate, carried as an opaque type.
#[verifier::external_type_specification]
#[verifier::external_body]
pub struct ExFnvHasher(fnv::FnvHasher);

/// The standard library's maker of hashers, carried as an opaque type.
#[verifier::external_type_specification]
#[verifier::external_body]
#[verifier::reject_recursive_types(H)]
pub struct ExBuildHasherDefault<H>(std::hash::BuildHasherDefault<H>);

/// A page cache that holds no page.
pub(crate) fn empty_cache() -> (cache: FnvHashMap<u64, u64>)
    ensures
        cache@ == Map::<u64, u64>::empty(),
{
    FnvHashMap::default()
}

/// Calls `FnvHashMap::get`. The result is the value held for `page`, if the map
/// holds one.
#[verifier::external_body]
pub(crate) fn lookup(cache: &FnvHashMap<u64, u64>, page: u64) -> (found: Option<u64>)
    ensures
        found == (if cache@.contains_key(page) {
            Some(cache@[page])
        } else {
            None
        }),
{
    cache.get(&page).copied()
}

/// Calls `FnvHashMap::insert`. The map then holds `frame` for `page`, whatever it
/// held for it before, and its other entries are as they were.
#[verifier::external_body]
pub(crate) fn remember(cache: &mut FnvHashMap<u64, u64>, page: u64, frame: u64)
    ensures
        final(cache)@ == old(cache)@.insert(page, frame),
{
    cache.insert(page, frame);
}

/// Drops all pages from a page cache.
pub(crate) fn forget_all(cache: &mut FnvHashMap<u64, u64>)
    ensures
        final(cache)@ == Map::<u64, u64>::empty(),
{
    cache.clear();
}

} // verus!
