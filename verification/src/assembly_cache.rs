//! The assemblies of the blocks whose columns are being collected, least recently used first.

use crate::payload_column_sidecar::{PayloadColumnSidecar, SidecarView};
use crate::primitives::{ColumnIndex, Hash256, Slot};
use hashlink::lru_cache::LruCache;
use std::collections::HashMap;
use std::sync::Arc;
use vstd::prelude::*;

verus! {

/// The columns held for a single beacon block.
pub struct Assembly {
    /// Taken from the block's bid; commits to every column of this payload.
    pub payload_columns_root: Hash256,
    pub slot: Slot,
    pub columns: HashMap<ColumnIndex, Arc<PayloadColumnSidecar>>,
    /// Set once the payload has been recovered, so that later columns are dropped rather than
    /// triggering a second reconstruction.
    pub reconstructed: bool,
}

/// What an [`Assembly`] holds.
#[verifier::ext_equal]
pub struct AssemblyView {
    pub payload_columns_root: Hash256,
    pub slot: Slot,
    pub columns: Map<ColumnIndex, SidecarView>,
    pub reconstructed: bool,
}

impl View for Assembly {
    type V = AssemblyView;

    open spec fn view(&self) -> AssemblyView {
        AssemblyView {
            payload_columns_root: self.payload_columns_root,
            slot: self.slot,
            columns: self.columns@.map_values(|sidecar: Arc<PayloadColumnSidecar>| sidecar@),
            reconstructed: self.reconstructed,
        }
    }
}

/// The assemblies of a bounded number of blocks, in a `hashlink::LruCache`.
#[verifier::external_body]
pub struct AssemblyCache {
    inner: LruCache<Hash256, Assembly>,
}

/// What a cache holds by block root, least recently used first.
pub uninterp spec fn cached(cache: AssemblyCache) -> Seq<(Hash256, AssemblyView)>;

/// How many entries a cache may hold.
pub uninterp spec fn capacity_of(cache: AssemblyCache) -> nat;

/// The keys of entries, in order.
pub open spec fn keys_of(entries: Seq<(Hash256, AssemblyView)>) -> Seq<Hash256> {
    Seq::new(entries.len(), |i: int| entries[i].0)
}

/// What entries hold under a key.
pub open spec fn entry_under(entries: Seq<(Hash256, AssemblyView)>, key: Hash256) -> Option<
    AssemblyView,
> {
    if keys_of(entries).contains(key) {
        Some(entries[keys_of(entries).index_of(key)].1)
    } else {
        None
    }
}

/// Entries without the one under a key.
pub open spec fn without(entries: Seq<(Hash256, AssemblyView)>, key: Hash256) -> Seq<
    (Hash256, AssemblyView),
> {
    if keys_of(entries).contains(key) {
        entries.remove(keys_of(entries).index_of(key))
    } else {
        entries
    }
}

/// Entries with a value under a key as the most recently used.
pub open spec fn refreshed(
    entries: Seq<(Hash256, AssemblyView)>,
    key: Hash256,
    value: AssemblyView,
) -> Seq<(Hash256, AssemblyView)> {
    without(entries, key).push((key, value))
}

/// Entries with the least recently used one dropped where there are more than fit.
pub open spec fn bounded(entries: Seq<(Hash256, AssemblyView)>, capacity: nat) -> Seq<
    (Hash256, AssemblyView),
> {
    if entries.len() > capacity {
        entries.skip(1)
    } else {
        entries
    }
}

/// Calls `hashlink::LruCache::new`: an empty cache that holds up to `capacity` entries.
#[verifier::external_body]
pub(crate) fn new_cache(capacity: usize) -> (result: AssemblyCache)
    ensures
        cached(result).len() == 0,
        capacity_of(result) == capacity,
{
    AssemblyCache { inner: LruCache::new(capacity) }
}

/// Calls `hashlink::LruCache::get`: the value under the key, which becomes the most recently used
/// entry; where there is none, the cache stays as it is.
#[verifier::external_body]
pub(crate) fn cache_get<'a>(cache: &'a mut AssemblyCache, key: &Hash256) -> (result: Option<
    &'a Assembly,
>)
    ensures
        capacity_of(*final(cache)) == capacity_of(*old(cache)),
        match result {
            Some(value) => entry_under(cached(*old(cache)), *key) == Some(value@) && cached(
                *final(cache),
            ) == refreshed(cached(*old(cache)), *key, value@),
            None => entry_under(cached(*old(cache)), *key) is None && cached(*final(cache))
                == cached(*old(cache)),
        },
{
    cache.inner.get(key)
}

/// Calls `hashlink::LruCache::get_mut`: access to the value under the key, which becomes the most
/// recently used entry; where there is none, the cache stays as it is.
#[verifier::external_body]
pub(crate) fn cache_get_mut<'a>(cache: &'a mut AssemblyCache, key: &Hash256) -> (result: Option<
    &'a mut Assembly,
>)
    ensures
        capacity_of(*final(cache)) == capacity_of(*old(cache)),
        match result {
            Some(value) => entry_under(cached(*old(cache)), *key) == Some((*value)@) && cached(
                *final(cache),
            ) == refreshed(cached(*old(cache)), *key, (*final(value))@),
            None => entry_under(cached(*old(cache)), *key) is None && cached(*final(cache))
                == cached(*old(cache)),
        },
{
    cache.inner.get_mut(key)
}

/// Calls `hashlink::LruCache::insert`: the value stands under the key as the most recently used
/// entry, and the least recently used entry is dropped where there are more than fit.
#[verifier::external_body]
pub(crate) fn cache_insert(cache: &mut AssemblyCache, key: Hash256, value: Assembly)
    ensures
        capacity_of(*final(cache)) == capacity_of(*old(cache)),
        cached(*final(cache)) == bounded(
            refreshed(cached(*old(cache)), key, value@),
            capacity_of(*old(cache)),
        ),
{
    cache.inner.insert(key, value);
}

/// Calls `hashlink::LruCache::remove`: the entry under the key is gone, and the others keep their
/// order.
#[verifier::external_body]
pub(crate) fn cache_remove(cache: &mut AssemblyCache, key: &Hash256)
    ensures
        capacity_of(*final(cache)) == capacity_of(*old(cache)),
        cached(*final(cache)) == without(cached(*old(cache)), *key),
{
    cache.inner.remove(key);
}

/// Calls `hashlink::LruCache::iter`, which visits the entries least recently used first, and keeps
/// the key and the slot of each.
#[verifier::external_body]
pub(crate) fn cache_slots(cache: &AssemblyCache) -> (result: Vec<(Hash256, Slot)>)
    ensures
        result@.len() == cached(*cache).len(),
        forall|i: int|
            0 <= i < result@.len() ==> (#[trigger] result@[i]) == (
                cached(*cache)[i].0,
                cached(*cache)[i].1.slot,
            ),
{
    cache.inner.iter().map(|(root, assembly)| (*root, assembly.slot)).collect()
}

} // verus!
