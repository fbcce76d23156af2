//! The process-wide diagnostic-context store.
//!
//! One [`SharedStore`] serves every execution unit of a process. A
//! reader/writer lock guards the backing [`Store`]: lookups and iteration
//! take a shared read lock, so concurrent readers proceed in parallel, while
//! every mutation takes the exclusive write lock. Each operation acquires
//! the lock exactly once and releases it before returning.
//!
//! Because another unit may write between two calls, no caller can pin the
//! shared contents across calls; the sequential semantics of each operation
//! are the ones proved on [`Store`], applied to the state found under the
//! lock.

use vstd::prelude::*;
use vstd::rwlock::{RwLock, RwLockPredicate};

use crate::model::{distinct_keys, Entry};
use crate::Store;

verus! {

/// The lock's invariant: any store value may sit in the lock (every
/// `Store` maintains its own one-entry-per-key invariant by construction).
pub struct AnyStore {}

impl RwLockPredicate<Store> for AnyStore {
    open spec fn inv(self, v: Store) -> bool {
        true
    }
}

/// A diagnostic-context store shared by the whole process, guarded by a
/// reader/writer lock.
pub struct SharedStore {
    lock: RwLock<Store, AnyStore>,
}

impl SharedStore {
    /// Creates an empty shared store.
    pub fn new() -> SharedStore {
        SharedStore { lock: RwLock::new(Store::new(), Ghost(AnyStore {})) }
    }

    /// Inserts an entry under the write lock, returning the value the key
    /// held immediately before, if any.
    pub fn insert(&self, key: String, value: String) -> Option<String> {
        let (mut store, handle) = self.lock.acquire_write();
        let prev = store.insert(key, value);
        handle.release_write(store);
        prev
    }

    /// Inserts the entries in the order given, under one write lock; a
    /// later occurrence of a key overwrites an earlier one.
    pub fn extend(&self, entries: Vec<Entry>) {
        let (mut store, handle) = self.lock.acquire_write();
        store.extend(entries);
        handle.release_write(store);
    }

    /// Hands the value under `key` (or `None` when the key is absent) to
    /// `f` under a read lock and returns `f`'s result. The callback must
    /// accept any lookup outcome, and must not re-enter the store: the read
    /// lock is held while it runs.
    pub fn get<T, F: FnOnce(Option<&str>) -> T>(&self, key: &String, f: F) -> (r: T)
        requires
            forall|v: Option<&str>| #[trigger] call_requires(f, (v,)),
        ensures
            exists|v: Option<&str>| #[trigger] call_ensures(f, (v,), r),
    {
        let read_handle = self.lock.acquire_read();
        let r = read_handle.borrow().get(key, f);
        read_handle.release_read();
        r
    }

    /// Removes the entry carrying `key` under the write lock, returning its
    /// value, if any.
    pub fn remove(&self, key: &String) -> Option<String> {
        let (mut store, handle) = self.lock.acquire_write();
        let prev = store.remove(key);
        handle.release_write(store);
        prev
    }

    /// Removes all entries under the write lock.
    pub fn clear(&self) {
        let (mut store, handle) = self.lock.acquire_write();
        store.clear();
        handle.release_write(store);
    }

    /// Returns a snapshot of the entries present under a read lock: each
    /// entry exactly once, in no guaranteed order.
    pub fn iter(&self) -> (out: Vec<Entry>)
        ensures
            distinct_keys(out@),
    {
        let read_handle = self.lock.acquire_read();
        let out = read_handle.borrow().iter();
        read_handle.release_read();
        out
    }
}

} // verus!
