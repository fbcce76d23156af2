//! A mapped diagnostic context (MDC): a string-to-string store that logging
//! call sites consult to enrich emitted records with ambient context.
//!
//! A [`Store`] is owned by one logical execution unit and holds at most one
//! value per key. Beside plain upserts it offers a scoped-mutation protocol:
//! [`Store::insert_scoped`] and [`Store::extend_scoped`] install overrides
//! and hand back a guard whose release restores the exact prior state for
//! the keys it touched. The process-wide variant lives in [`global`].

use vstd::prelude::*;

pub mod global;
pub mod laws;
pub mod model;

use model::{
    batch_apply, batch_snapshots, distinct_keys, entries_match, entry_views, has_key,
    lemma_entries_match_self, lemma_map_of_absent, lemma_map_of_at, lemma_map_of_empty,
    lemma_map_of_push, lemma_map_of_remove, lookup_matches, map_of, batch_restore, restore_one,
    snapshot_of, snapshot_views, Entry, Snapshot,
};

verus! {

/// A diagnostic-context store owned by one execution unit.
///
/// Its abstract value (`self@`) is a map from key contents to value
/// contents; at any instant the store holds at most one entry per key.
pub struct Store {
    entries: Vec<Entry>,
}

impl View for Store {
    type V = Map<Seq<char>, Seq<char>>;

    closed spec fn view(&self) -> Map<Seq<char>, Seq<char>> {
        map_of(self.entries@)
    }
}

/// The index of the entry carrying `key`, if one is present.
fn find_index(entries: &Vec<Entry>, key: &String) -> (r: Option<usize>)
    ensures
        match r {
            Some(i) => i < entries@.len() && entries@[i as int].0@ == key@,
            None => !has_key(entries@, key@),
        },
{
    let mut i: usize = 0;
    while i < entries.len()
        invariant
            i <= entries@.len(),
            forall|j: int| 0 <= j < i ==> (#[trigger] entries@[j]).0@ != key@,
        decreases entries@.len() - i,
    {
        if entries[i].0 == *key {
            return Some(i);
        }
        i += 1;
    }
    None
}

impl Store {
    #[verifier::type_invariant]
    spec fn wf(&self) -> bool {
        distinct_keys(self.entries@)
    }

    /// Creates an empty store.
    pub fn new() -> (s: Store)
        ensures
            s@ == Map::<Seq<char>, Seq<char>>::empty(),
    {
        proof {
            lemma_map_of_empty();
        }
        Store { entries: Vec::new() }
    }

    /// Inserts an entry, returning the value the key had before, if any.
    pub fn insert(&mut self, key: String, value: String) -> (prev: Option<String>)
        ensures
            final(self)@ == old(self)@.insert(key@, value@),
            match prev {
                Some(p) => old(self)@.contains_key(key@) && p@ == old(self)@[key@],
                None => !old(self)@.contains_key(key@),
            },
    {
        proof {
            use_type_invariant(&*self);
        }
        let mut entries: Vec<Entry> = Vec::new();
        core::mem::swap(&mut self.entries, &mut entries);
        let ghost s0 = entries@;
        let prev = match find_index(&entries, &key) {
            Some(i) => {
                proof {
                    lemma_map_of_at(s0, i as int);
                    lemma_map_of_remove(s0, i as int);
                }
                let pair = entries.remove(i);
                Some(pair.1)
            },
            None => {
                proof {
                    lemma_map_of_absent(s0, key@);
                }
                None
            },
        };
        let ghost s1 = entries@;
        proof {
            lemma_map_of_push(s1, (key, value));
            assert(map_of(s1).insert(key@, value@) =~= map_of(s0).insert(key@, value@));
        }
        entries.push((key, value));
        core::mem::swap(&mut self.entries, &mut entries);
        prev
    }

    /// Removes the entry carrying `key`, returning its value, if any.
    pub fn remove(&mut self, key: &String) -> (prev: Option<String>)
        ensures
            final(self)@ == old(self)@.remove(key@),
            match prev {
                Some(p) => old(self)@.contains_key(key@) && p@ == old(self)@[key@],
                None => !old(self)@.contains_key(key@),
            },
    {
        proof {
            use_type_invariant(&*self);
        }
        let mut entries: Vec<Entry> = Vec::new();
        core::mem::swap(&mut self.entries, &mut entries);
        let ghost s0 = entries@;
        let prev = match find_index(&entries, key) {
            Some(i) => {
                proof {
                    lemma_map_of_at(s0, i as int);
                    lemma_map_of_remove(s0, i as int);
                }
                let pair = entries.remove(i);
                Some(pair.1)
            },
            None => {
                proof {
                    lemma_map_of_absent(s0, key@);
                    assert(map_of(s0).remove(key@) =~= map_of(s0));
                }
                None
            },
        };
        core::mem::swap(&mut self.entries, &mut entries);
        prev
    }

    /// Hands the value under `key` (or `None` when the key is absent) to
    /// `f` and returns `f`'s result. The callback sees a consistent
    /// snapshot for that single key; it must not re-enter the store.
    pub fn get<T, F: FnOnce(Option<&str>) -> T>(&self, key: &String, f: F) -> (r: T)
        requires
            forall|v: Option<&str>|
                lookup_matches(self@, key@, v) ==> #[trigger] call_requires(f, (v,)),
        ensures
            exists|v: Option<&str>|
                lookup_matches(self@, key@, v) && #[trigger] call_ensures(f, (v,), r),
    {
        proof {
            use_type_invariant(&*self);
        }
        match find_index(&self.entries, key) {
            Some(i) => {
                proof {
                    lemma_map_of_at(self.entries@, i as int);
                }
                let value_ref = self.entries[i].1.as_str();
                proof {
                    assert(lookup_matches(self@, key@, Some(value_ref)));
                    assert(call_requires(f, (Some(value_ref),)));
                }
                let r = f(Some(value_ref));
                proof {
                    assert(lookup_matches(self@, key@, Some(value_ref)) && call_ensures(
                        f,
                        (Some(value_ref),),
                        r,
                    ));
                }
                r
            },
            None => {
                proof {
                    lemma_map_of_absent(self.entries@, key@);
                    assert(lookup_matches(self@, key@, None::<&str>));
                    assert(call_requires(f, (None::<&str>,)));
                }
                let r = f(None);
                proof {
                    assert(lookup_matches(self@, key@, None::<&str>) && call_ensures(
                        f,
                        (None::<&str>,),
                        r,
                    ));
                }
                r
            },
        }
    }

    /// Removes all entries.
    pub fn clear(&mut self)
        ensures
            final(self)@ == Map::<Seq<char>, Seq<char>>::empty(),
    {
        proof {
            lemma_map_of_empty();
        }
        self.entries = Vec::new();
    }

    /// Returns a snapshot of the current entries: each entry exactly once,
    /// in no guaranteed order.
    pub fn iter(&self) -> (out: Vec<Entry>)
        ensures
            entries_match(self@, out@),
    {
        proof {
            use_type_invariant(&*self);
        }
        let mut out: Vec<Entry> = Vec::new();
        let mut i: usize = 0;
        while i < self.entries.len()
            invariant
                i <= self.entries@.len(),
                out@.len() == i,
                forall|j: int| 0 <= j < i ==> #[trigger] out@[j] == self.entries@[j],
            decreases self.entries@.len() - i,
        {
            out.push((self.entries[i].0.clone(), self.entries[i].1.clone()));
            i += 1;
        }
        proof {
            assert(out@ =~= self.entries@);
            lemma_entries_match_self(self.entries@);
        }
        out
    }

    /// Inserts the entries in the order given; a later occurrence of a key
    /// overwrites an earlier one.
    pub fn extend(&mut self, entries: Vec<Entry>)
        ensures
            final(self)@ == batch_apply(old(self)@, entry_views(entries@)),
    {
        let ghost m0 = self@;
        let ghost vs = entry_views(entries@);
        proof {
            assert(vs.skip(0) =~= vs);
        }
        let mut j: usize = 0;
        while j < entries.len()
            invariant
                j <= entries@.len(),
                vs == entry_views(entries@),
                batch_apply(self@, vs.skip(j as int)) == batch_apply(m0, vs),
            decreases entries@.len() - j,
        {
            let key = entries[j].0.clone();
            let value = entries[j].1.clone();
            proof {
                assert(vs.skip(j as int)[0] == vs[j as int]);
                assert(vs.skip(j as int).drop_first() =~= vs.skip(j as int + 1));
                assert(vs[j as int] == (key@, value@));
            }
            self.insert(key, value);
            j += 1;
        }
        proof {
            assert(vs.skip(entries@.len() as int) =~= Seq::<(Seq<char>, Seq<char>)>::empty());
        }
    }

    /// Inserts an entry and returns a guard that, on release, restores the
    /// captured prior state of `key`.
    pub fn insert_scoped(&mut self, key: String, value: String) -> (g: InsertGuard)
        ensures
            final(self)@ == old(self)@.insert(key@, value@),
            g.is_active(),
            g.key_view() == key@,
            g.prior() == snapshot_of(old(self)@, key@),
    {
        let guard_key = key.clone();
        let prev = self.insert(key, value);
        InsertGuard { key: Some(guard_key), old_value: prev }
    }

    /// Inserts the entries in order and returns a guard that, on release,
    /// restores the pre-batch state of every key the batch touched.
    pub fn extend_scoped(&mut self, entries: Vec<Entry>) -> (g: ExtendGuard)
        ensures
            final(self)@ == batch_apply(old(self)@, entry_views(entries@)),
            g.snaps() == batch_snapshots(old(self)@, entry_views(entries@)),
    {
        let ghost m0 = self@;
        let ghost vs = entry_views(entries@);
        let mut snapshots: Vec<(String, Option<String>)> = Vec::new();
        proof {
            assert(vs.skip(0) =~= vs);
            assert(snapshot_views(snapshots@) =~= Seq::<Snapshot>::empty());
            assert(Seq::<Snapshot>::empty() + batch_snapshots(m0, vs) =~= batch_snapshots(m0, vs));
        }
        let mut j: usize = 0;
        while j < entries.len()
            invariant
                j <= entries@.len(),
                vs == entry_views(entries@),
                batch_apply(self@, vs.skip(j as int)) == batch_apply(m0, vs),
                snapshot_views(snapshots@) + batch_snapshots(self@, vs.skip(j as int))
                    == batch_snapshots(m0, vs),
            decreases entries@.len() - j,
        {
            let key = entries[j].0.clone();
            let value = entries[j].1.clone();
            let ghost m_before = self@;
            let ghost sv0 = snapshots@;
            proof {
                assert(vs.skip(j as int)[0] == vs[j as int]);
                assert(vs.skip(j as int).drop_first() =~= vs.skip(j as int + 1));
                assert(vs[j as int] == (key@, value@));
            }
            let guard_key = key.clone();
            let prev = self.insert(key, value);
            snapshots.push((guard_key, prev));
            proof {
                let x = (key@, snapshot_of(m_before, key@));
                assert(snapshot_views(snapshots@) =~= snapshot_views(sv0) + seq![x]);
                assert(seq![x] + batch_snapshots(self@, vs.skip(j as int + 1))
                    == batch_snapshots(m_before, vs.skip(j as int)));
                assert((snapshot_views(sv0) + seq![x]) + batch_snapshots(
                    self@,
                    vs.skip(j as int + 1),
                ) =~= snapshot_views(sv0) + (seq![x] + batch_snapshots(
                    self@,
                    vs.skip(j as int + 1),
                )));
            }
            j += 1;
        }
        proof {
            assert(vs.skip(entries@.len() as int) =~= Seq::<(Seq<char>, Seq<char>)>::empty());
            assert(snapshot_views(snapshots@) + Seq::<Snapshot>::empty() =~= snapshot_views(
                snapshots@,
            ));
        }
        ExtendGuard { snapshots }
    }
}

/// A guard that restores one entry when released.
///
/// Returned by [`Store::insert_scoped`]. It carries the key and the value
/// the key held before the guarded insert (or its absence). Release is
/// one-shot: once released, the guard never mutates a store again.
pub struct InsertGuard {
    key: Option<String>,
    old_value: Option<String>,
}

impl InsertGuard {
    /// The guard has not been released yet.
    pub closed spec fn is_active(&self) -> bool {
        self.key is Some
    }

    /// The key whose prior state this guard restores.
    pub closed spec fn key_view(&self) -> Seq<char> {
        match self.key {
            Some(k) => k@,
            None => Seq::empty(),
        }
    }

    /// The captured prior state: the value before the guarded insert, or
    /// `None` when the key was absent then.
    pub closed spec fn prior(&self) -> Option<Seq<char>> {
        match self.old_value {
            Some(v) => Some(v@),
            None => None,
        }
    }

    /// Releases the guard against `store`: the key it covers goes back to
    /// its captured prior state. Releasing an already-released guard leaves
    /// the store untouched.
    ///
    /// Correct unwinding of nested guards is the caller's duty: release
    /// guards in reverse acquisition order, against the store that issued
    /// them.
    pub fn release(&mut self, store: &mut Store)
        ensures
            !final(self).is_active(),
            old(self).is_active() ==> final(store)@ == restore_one(
                old(store)@,
                old(self).key_view(),
                old(self).prior(),
            ),
            !old(self).is_active() ==> final(store)@ == old(store)@,
    {
        match self.key.take() {
            Some(key) => {
                match self.old_value.take() {
                    Some(value) => {
                        store.insert(key, value);
                    },
                    None => {
                        store.remove(&key);
                    },
                }
            },
            None => {},
        }
    }
}

/// A guard that restores a batch of entries when released.
///
/// Returned by [`Store::extend_scoped`]. It carries one snapshot per entry
/// supplied to the batch, in capture order; release replays them in reverse
/// order, so a key repeated within the batch lands on its true pre-batch
/// value. Release is one-shot: a released guard holds no snapshots.
pub struct ExtendGuard {
    snapshots: Vec<(String, Option<String>)>,
}

impl ExtendGuard {
    /// The captured snapshots still to be restored, in capture order.
    pub closed spec fn snaps(&self) -> Seq<Snapshot> {
        snapshot_views(self.snapshots@)
    }

    /// Releases the guard against `store`: replays the snapshots in reverse
    /// capture order, returning every key the batch touched to its captured
    /// state. Releasing an already-released guard leaves the store
    /// untouched, as it replays nothing.
    ///
    /// Correct unwinding of nested guards is the caller's duty: release
    /// guards in reverse acquisition order, against the store that issued
    /// them.
    pub fn release(&mut self, store: &mut Store)
        ensures
            final(self).snaps().len() == 0,
            final(store)@ == batch_restore(old(store)@, old(self).snaps()),
    {
        let ghost m0 = store@;
        let ghost sv_all = self.snaps();
        while self.snapshots.len() > 0
            invariant
                batch_restore(store@, snapshot_views(self.snapshots@)) == batch_restore(
                    m0,
                    sv_all,
                ),
            decreases self.snapshots@.len(),
        {
            let ghost sv_pre = self.snapshots@;
            let entry = self.snapshots.pop().unwrap();
            let (key, prior) = entry;
            proof {
                assert(snapshot_views(sv_pre).last() == (key@, model::prior_view(prior)));
                assert(snapshot_views(sv_pre).drop_last() =~= snapshot_views(self.snapshots@));
            }
            match prior {
                Some(value) => {
                    store.insert(key, value);
                },
                None => {
                    store.remove(&key);
                },
            }
        }
        proof {
            assert(snapshot_views(self.snapshots@) =~= Seq::<Snapshot>::empty());
        }
    }
}

} // verus!
