//! The cache of source bytes: a bounded store, addressed by fingerprint, that
//! evicts the least recently used entry.

use crate::recency::{
    inserted, lemma_inserted, lemma_touched, lookup, touched, well_formed, Entries,
};
use lru::LruCache;
use vstd::prelude::*;

verus! {

/// `lru::LruCache`, a map of bounded size whose entries are kept in the order of
/// their last use. Nothing inside it is visible here.
#[verifier::external_type_specification]
#[verifier::external_body]
#[verifier::reject_recursive_types(K)]
#[verifier::reject_recursive_types(V)]
#[verifier::reject_recursive_types(S)]
pub struct ExLruCache<K, V, S>(LruCache<K, V, S>);

/// `lru::DefaultHasher`, the state from which an `lru::LruCache` hashes its keys
/// where no other is named. Nothing inside it is visible here.
#[verifier::external_type_specification]
#[verifier::external_body]
pub struct ExDefaultHasher(lru::DefaultHasher);

/// The entries that an `lru::LruCache` holds, from the most recently used to the
/// least recently used: the order of its internal list from head to tail.
pub uninterp spec fn lru_entries(cache: LruCache<u64, Vec<u8>>) -> Entries;

/// The capacity that an `lru::LruCache` was made with.
pub uninterp spec fn lru_capacity(cache: LruCache<u64, Vec<u8>>) -> nat;

/// The greatest capacity that a store can be made with. Room for every entry is
/// set aside when the store is made, and up to this number the size of that room
/// can be computed on every machine.
pub const MAX_CAPACITY: usize = 0x100_0000;

/// Calls `lru::LruCache::new`, which makes an empty cache that holds at most
/// `capacity` entries. It allocates a table for `capacity` entries at once and
/// panics where the size of that table overflows, which `MAX_CAPACITY` excludes.
#[verifier::external_body]
fn lru_new(capacity: usize) -> (cache: LruCache<u64, Vec<u8>>)
    requires
        capacity <= MAX_CAPACITY,
    ensures
        lru_entries(cache) == Seq::<(u64, Seq<u8>)>::empty(),
        lru_capacity(cache) == capacity,
{
    LruCache::new(capacity)
}

/// Calls `lru::LruCache::get`, which returns the value under `key` and, where it
/// finds one, moves that entry to the head of the list. The value is handed out
/// as a copy. Nothing on the way panics.
#[verifier::external_body]
fn lru_get(cache: &mut LruCache<u64, Vec<u8>>, key: u64) -> (found: Option<Vec<u8>>)
    ensures
        lru_entries(*final(cache)) == touched(lru_entries(*old(cache)), key),
        lru_capacity(*final(cache)) == lru_capacity(*old(cache)),
        found is Some == lookup(lru_entries(*old(cache)), key) is Some,
        found is Some ==> found->Some_0@ == lookup(lru_entries(*old(cache)), key)->Some_0,
    no_unwind
{
    cache.get(&key).cloned()
}

/// Calls `lru::LruCache::put`. Where `key` is present, it replaces the value and
/// moves the entry to the head of the list. Where it is not, a cache of capacity
/// zero stays empty; any other cache first drops the entry at the tail if it is
/// full, and then puts the new entry at the head. The value that was replaced,
/// which `put` returns, is dropped. Nothing on the way panics.
#[verifier::external_body]
fn lru_put(cache: &mut LruCache<u64, Vec<u8>>, key: u64, value: Vec<u8>)
    ensures
        lru_entries(*final(cache)) == inserted(
            lru_entries(*old(cache)),
            lru_capacity(*old(cache)),
            key,
            value@,
        ),
        lru_capacity(*final(cache)) == lru_capacity(*old(cache)),
    no_unwind
{
    cache.put(key, value);
}

/// A bounded store from fingerprints to source bytes. When a new key arrives at
/// a full store, the entry that was used least recently leaves.
pub struct CacheStore {
    inner: LruCache<u64, Vec<u8>>,
}

impl View for CacheStore {
    type V = Entries;

    /// The entries, the most recently used first.
    closed spec fn view(&self) -> Entries {
        lru_entries(self.inner)
    }
}

impl CacheStore {
    /// The number of entries that the store holds at most. It never changes.
    pub closed spec fn capacity(&self) -> nat {
        lru_capacity(self.inner)
    }

    #[verifier::type_invariant]
    spec fn consistent(self) -> bool {
        well_formed(lru_entries(self.inner), lru_capacity(self.inner))
    }

    /// Makes an empty store that holds at most `capacity` entries.
    pub fn new(capacity: usize) -> (store: CacheStore)
        requires
            capacity <= MAX_CAPACITY,
        ensures
            store@ == Seq::<(u64, Seq<u8>)>::empty(),
            store.capacity() == capacity,
    {
        CacheStore { inner: lru_new(capacity) }
    }

    /// Looks `key` up. A hit returns the bytes and makes the entry the most
    /// recently used one; a miss changes nothing.
    pub fn get(&mut self, key: u64) -> (found: Option<Vec<u8>>)
        ensures
            final(self)@ == touched(old(self)@, key),
            final(self).capacity() == old(self).capacity(),
            well_formed(old(self)@, old(self).capacity()),
            well_formed(final(self)@, final(self).capacity()),
            found is Some == lookup(old(self)@, key) is Some,
            found is Some ==> found->Some_0@ == lookup(old(self)@, key)->Some_0,
    {
        proof {
            use_type_invariant(&*self);
            lemma_touched(lru_entries(self.inner), lru_capacity(self.inner), key);
        }
        lru_get(&mut self.inner, key)
    }

    /// Stores `bytes` under `key` as the most recently used entry. If the key is
    /// new and the store is full, the least recently used entry leaves first.
    pub fn put(&mut self, key: u64, bytes: Vec<u8>)
        ensures
            final(self)@ == inserted(old(self)@, old(self).capacity(), key, bytes@),
            final(self).capacity() == old(self).capacity(),
            well_formed(old(self)@, old(self).capacity()),
            well_formed(final(self)@, final(self).capacity()),
    {
        proof {
            use_type_invariant(&*self);
            lemma_inserted(lru_entries(self.inner), lru_capacity(self.inner), key, bytes@);
        }
        lru_put(&mut self.inner, key, bytes)
    }
}

} // verus!
