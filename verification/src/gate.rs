//! The concurrency gate: a single exclusive lock around the store
//! engine.
//!
//! Every operation acquires the lock for its full duration, so
//! concurrent callers observe a serialized, linearizable view of the
//! whole key space: a read sees the effect of every write that
//! completed before it, and two concurrent numeric updates on the same
//! key can never interleave their read-modify-write. Reads that do not
//! change the store share a read lock. Which caller acquires the lock
//! first is not promised.
//!
//! What each operation does to the store is the contract of the
//! corresponding [`TTLStore`] method; this wrapper itself promises
//! only that the engine invariant holds across every acquisition.

use vstd::prelude::*;
use vstd::rwlock::RwLock;
use crate::errors::StoreError;
use crate::store::TTLStore;

verus! {

/// A store behind a single process-wide exclusive lock.
pub struct StoreGate {
    lock: RwLock<TTLStore, spec_fn(TTLStore) -> bool>,
}

impl StoreGate {
    /// The lock holds exactly the well-formed stores.
    pub closed spec fn wf(&self) -> bool {
        forall|s: TTLStore| self.lock.inv(s) == s.wf()
    }

    /// Creates a gate around a new, empty store.
    pub fn new() -> (r: Self)
        ensures
            r.wf(),
    {
        let r = StoreGate {
            lock: RwLock::new(TTLStore::new(), Ghost(|s: TTLStore| s.wf())),
        };
        r
    }

    /// Serialized `TTLStore::set`.
    pub fn set(&self, key: &str, value: &str, ttl: Option<u64>, now: u64)
        requires
            self.wf(),
            ttl matches Some(d) ==> now + d <= u64::MAX,
    {
        let (mut store, handle) = self.lock.acquire_write();
        store.set(key, value, ttl, now);
        handle.release_write(store);
    }

    /// Serialized `TTLStore::get`.
    pub fn get(&self, key: &str, now: u64) -> Option<String>
        requires
            self.wf(),
    {
        let (mut store, handle) = self.lock.acquire_write();
        let r = store.get(key, now);
        handle.release_write(store);
        r
    }

    /// Serialized `TTLStore::expire`.
    pub fn expire(&self, key: &str, ttl: u64, now: u64) -> Result<(), StoreError>
        requires
            self.wf(),
            now + ttl <= u64::MAX,
    {
        let (mut store, handle) = self.lock.acquire_write();
        let r = store.expire(key, ttl, now);
        handle.release_write(store);
        r
    }

    /// Serialized `TTLStore::ttl`.
    pub fn ttl(&self, key: &str, now: u64) -> Option<i64>
        requires
            self.wf(),
    {
        let (mut store, handle) = self.lock.acquire_write();
        let r = store.ttl(key, now);
        handle.release_write(store);
        r
    }

    /// Serialized `TTLStore::del`.
    pub fn del(&self, key: &str, now: u64) -> bool
        requires
            self.wf(),
    {
        let (mut store, handle) = self.lock.acquire_write();
        let r = store.del(key, now);
        handle.release_write(store);
        r
    }

    /// Serialized `TTLStore::incr`: under the exclusive lock the whole
    /// read-modify-write is one step, so concurrent increments never
    /// lose updates.
    pub fn incr(&self, key: &str, amount: i64, now: u64) -> Result<String, StoreError>
        requires
            self.wf(),
    {
        let (mut store, handle) = self.lock.acquire_write();
        let r = store.incr(key, amount, now);
        handle.release_write(store);
        r
    }

    /// Serialized `TTLStore::decr`.
    pub fn decr(&self, key: &str, amount: i64, now: u64) -> Result<String, StoreError>
        requires
            self.wf(),
    {
        let (mut store, handle) = self.lock.acquire_write();
        let r = store.decr(key, amount, now);
        handle.release_write(store);
        r
    }

    /// Serialized `TTLStore::append`.
    pub fn append(&self, key: &str, value: &str, now: u64) -> Result<String, StoreError>
        requires
            self.wf(),
    {
        let (mut store, handle) = self.lock.acquire_write();
        let r = store.append(key, value, now);
        handle.release_write(store);
        r
    }

    /// Serialized `TTLStore::keys`; shares a read lock, since listing
    /// keys defers physical eviction.
    pub fn keys(&self, pattern: &str, now: u64) -> Vec<String>
        requires
            self.wf(),
    {
        let handle = self.lock.acquire_read();
        let r = handle.borrow().keys(pattern, now);
        handle.release_read();
        r
    }

    /// Serialized `TTLStore::l_push`.
    pub fn l_push(&self, key: &str, value: &str, now: u64) -> Result<(), StoreError>
        requires
            self.wf(),
    {
        let (mut store, handle) = self.lock.acquire_write();
        let r = store.l_push(key, value, now);
        handle.release_write(store);
        r
    }

    /// Serialized `TTLStore::l_pop`.
    pub fn l_pop(&self, key: &str, now: u64) -> Option<String>
        requires
            self.wf(),
    {
        let (mut store, handle) = self.lock.acquire_write();
        let r = store.l_pop(key, now);
        handle.release_write(store);
        r
    }

    /// Serialized `TTLStore::s_add`.
    pub fn s_add(&self, key: &str, member: &str, now: u64) -> Result<(), StoreError>
        requires
            self.wf(),
    {
        let (mut store, handle) = self.lock.acquire_write();
        let r = store.s_add(key, member, now);
        handle.release_write(store);
        r
    }

    /// Serialized `TTLStore::s_members`.
    pub fn s_members(&self, key: &str, now: u64) -> Vec<String>
        requires
            self.wf(),
    {
        let (mut store, handle) = self.lock.acquire_write();
        let r = store.s_members(key, now);
        handle.release_write(store);
        r
    }

    /// Serialized `TTLStore::h_set`.
    pub fn h_set(&self, key: &str, field: &str, value: &str, now: u64) -> Result<(), StoreError>
        requires
            self.wf(),
    {
        let (mut store, handle) = self.lock.acquire_write();
        let r = store.h_set(key, field, value, now);
        handle.release_write(store);
        r
    }

    /// Serialized `TTLStore::h_get`.
    pub fn h_get(&self, key: &str, field: &str, now: u64) -> Option<String>
        requires
            self.wf(),
    {
        let (mut store, handle) = self.lock.acquire_write();
        let r = store.h_get(key, field, now);
        handle.release_write(store);
        r
    }
}

} // verus!
