//! The laws of the scoped-mutation protocol, stated over the model.
//!
//! Each law quantifies over every store state, so it covers arbitrary
//! nesting: releasing a guard undoes exactly the inserts that guard made,
//! whatever the store held before.

use vstd::prelude::*;

use crate::model::{
    batch_apply, batch_restore, batch_snapshots, entries_match, restore_one, snapshot_of, CtxMap,
    Entry, Snapshot,
};

verus! {

/// Releasing a single guarded insert restores the prior state: whatever
/// `k` mapped to before the insert (or its absence) is back afterwards.
pub proof fn lemma_scoped_insert_restores(m: CtxMap, k: Seq<char>, v: Seq<char>)
    ensures
        restore_one(m.insert(k, v), k, snapshot_of(m, k)) == m,
{
    if m.contains_key(k) {
        assert(m.insert(k, v).insert(k, m[k]) =~= m);
    } else {
        assert(m.insert(k, v).remove(k) =~= m);
    }
}

/// Restoring `seq![s0] + s` replays `s` first (itself in reverse order) and
/// then `s0`: the earliest snapshot is the last one undone.
pub proof fn lemma_batch_restore_cons(m: CtxMap, s0: Snapshot, s: Seq<Snapshot>)
    ensures
        batch_restore(m, seq![s0] + s) == restore_one(batch_restore(m, s), s0.0, s0.1),
    decreases s.len(),
{
    if s.len() == 0 {
        let t = seq![s0] + s;
        assert(t =~= seq![s0]);
        assert(t.last() == s0);
        assert(t.drop_last() =~= Seq::<Snapshot>::empty());
        assert(batch_restore(m, t) == batch_restore(
            restore_one(m, t.last().0, t.last().1),
            t.drop_last(),
        ));
        assert(batch_restore(restore_one(m, s0.0, s0.1), Seq::<Snapshot>::empty()) == restore_one(
            m,
            s0.0,
            s0.1,
        ));
        assert(batch_restore(m, s) == m);
    } else {
        let t = seq![s0] + s;
        assert(t.last() == s.last());
        assert(t.drop_last() =~= seq![s0] + s.drop_last());
        let m2 = restore_one(m, s.last().0, s.last().1);
        assert(batch_restore(m, t) == batch_restore(m2, t.drop_last()));
        lemma_batch_restore_cons(m2, s0, s.drop_last());
        assert(batch_restore(m, s) == batch_restore(m2, s.drop_last()));
    }
}

/// Releasing a batch guard restores the pre-batch state, repeated keys
/// included: applying a batch of inserts and then replaying its snapshots
/// in reverse capture order is the identity.
pub proof fn lemma_extend_scoped_restores(m: CtxMap, es: Seq<(Seq<char>, Seq<char>)>)
    ensures
        batch_restore(batch_apply(m, es), batch_snapshots(m, es)) == m,
    decreases es.len(),
{
    if es.len() > 0 {
        let k = es[0].0;
        let v = es[0].1;
        let m1 = m.insert(k, v);
        let rest = es.drop_first();
        lemma_extend_scoped_restores(m1, rest);
        lemma_batch_restore_cons(
            batch_apply(m1, rest),
            (k, snapshot_of(m, k)),
            batch_snapshots(m1, rest),
        );
        lemma_scoped_insert_restores(m, k, v);
    }
}

/// A released guard stays inert: replaying no snapshots leaves any store
/// exactly as it is, so a second release has no observable effect.
pub proof fn lemma_release_idempotent(m: CtxMap)
    ensures
        batch_restore(m, Seq::<Snapshot>::empty()) == m,
{
}

/// After `clear`, iteration visits no entries: only the empty enumeration
/// matches the empty map.
pub proof fn lemma_iter_after_clear(out: Seq<Entry>)
    requires
        entries_match(Map::<Seq<char>, Seq<char>>::empty(), out),
    ensures
        out.len() == 0,
{
    if out.len() > 0 {
        assert(Map::<Seq<char>, Seq<char>>::empty().contains_key(out[0].0@));
    }
}

} // verus!
