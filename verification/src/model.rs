//! The mathematical model of a diagnostic-context store.
//!
//! A store is modelled as a finite map from key characters to value
//! characters. An entry sequence with pairwise-distinct keys represents such
//! a map; the scoped-mutation protocol is modelled by snapshot sequences and
//! their replay in reverse capture order.

use vstd::prelude::*;

verus! {

/// A stored entry: a key and its value.
pub type Entry = (String, String);

/// The model of a store: a map from key contents to value contents.
pub type CtxMap = Map<Seq<char>, Seq<char>>;

/// The model of one captured snapshot: a key and the value it had before a
/// guarded insert, or `None` when the key was absent then.
pub type Snapshot = (Seq<char>, Option<Seq<char>>);

/// The keys of `s` are pairwise distinct.
pub open spec fn distinct_keys(s: Seq<Entry>) -> bool {
    forall|i: int, j: int| 0 <= i < j < s.len() ==> s[i].0@ != s[j].0@
}

/// Some entry of `s` carries the key `k`.
pub open spec fn has_key(s: Seq<Entry>, k: Seq<char>) -> bool {
    exists|i: int| 0 <= i < s.len() && s[i].0@ == k
}

/// An index of an entry of `s` carrying `k`; unique when keys are distinct.
pub open spec fn key_index(s: Seq<Entry>, k: Seq<char>) -> int {
    choose|i: int| 0 <= i < s.len() && s[i].0@ == k
}

/// The map that an entry sequence represents.
pub open spec fn map_of(s: Seq<Entry>) -> CtxMap {
    Map::new(|k: Seq<char>| has_key(s, k), |k: Seq<char>| s[key_index(s, k)].1@)
}

/// The contents of the entries, key and value views side by side.
pub open spec fn entry_views(s: Seq<Entry>) -> Seq<(Seq<char>, Seq<char>)> {
    s.map_values(|p: Entry| (p.0@, p.1@))
}

/// The outcome a lookup callback is handed: the value under `k`, or `None`
/// when the key is absent from `m`.
pub open spec fn lookup_matches(m: CtxMap, k: Seq<char>, v: Option<&str>) -> bool {
    match v {
        Some(s) => m.contains_key(k) && s@ == m[k],
        None => !m.contains_key(k),
    }
}

/// The contents of a captured prior value.
pub open spec fn prior_view(p: Option<String>) -> Option<Seq<char>> {
    match p {
        Some(v) => Some(v@),
        None => None,
    }
}

/// The contents of captured snapshots, in capture order.
pub open spec fn snapshot_views(s: Seq<(String, Option<String>)>) -> Seq<Snapshot> {
    s.map_values(|p: (String, Option<String>)| (p.0@, prior_view(p.1)))
}

/// What one guarded insert of `k` must later put back: the prior value, or
/// absence.
pub open spec fn snapshot_of(m: CtxMap, k: Seq<char>) -> Option<Seq<char>> {
    if m.contains_key(k) {
        Some(m[k])
    } else {
        None
    }
}

/// Undo one guarded insert: put the prior value back, or remove the key.
pub open spec fn restore_one(m: CtxMap, k: Seq<char>, prior: Option<Seq<char>>) -> CtxMap {
    match prior {
        Some(v) => m.insert(k, v),
        None => m.remove(k),
    }
}

/// Insert a batch of entries, first to last.
pub open spec fn batch_apply(m: CtxMap, es: Seq<(Seq<char>, Seq<char>)>) -> CtxMap
    decreases es.len(),
{
    if es.len() == 0 {
        m
    } else {
        batch_apply(m.insert(es[0].0, es[0].1), es.drop_first())
    }
}

/// The snapshots a batch insert captures, in insertion order. Each records
/// the value visible immediately before its own insert, so a key repeated
/// within the batch snapshots the value an earlier occurrence just wrote.
pub open spec fn batch_snapshots(m: CtxMap, es: Seq<(Seq<char>, Seq<char>)>) -> Seq<Snapshot>
    decreases es.len(),
{
    if es.len() == 0 {
        Seq::empty()
    } else {
        seq![(es[0].0, snapshot_of(m, es[0].0))] + batch_snapshots(
            m.insert(es[0].0, es[0].1),
            es.drop_first(),
        )
    }
}

/// Replay captured snapshots in reverse capture order: the last override is
/// undone first, so a repeated key lands on its true pre-batch value.
pub open spec fn batch_restore(m: CtxMap, snaps: Seq<Snapshot>) -> CtxMap
    decreases snaps.len(),
{
    if snaps.len() == 0 {
        m
    } else {
        batch_restore(restore_one(m, snaps.last().0, snaps.last().1), snaps.drop_last())
    }
}

/// `s` enumerates the map `m`: every listed entry is in `m`, no key is
/// listed twice, and every key of `m` is listed.
pub open spec fn entries_match(m: CtxMap, s: Seq<Entry>) -> bool {
    &&& distinct_keys(s)
    &&& forall|i: int|
        0 <= i < s.len() ==> m.contains_key(#[trigger] s[i].0@) && m[s[i].0@] == s[i].1@
    &&& forall|k: Seq<char>| m.contains_key(k) ==> has_key(s, k)
}

/// Under distinct keys, the represented map agrees with every entry.
pub proof fn lemma_map_of_at(s: Seq<Entry>, i: int)
    requires
        distinct_keys(s),
        0 <= i < s.len(),
    ensures
        map_of(s).contains_key(s[i].0@),
        map_of(s)[s[i].0@] == s[i].1@,
{
    assert(has_key(s, s[i].0@));
    let j = key_index(s, s[i].0@);
    assert(0 <= j < s.len() && s[j].0@ == s[i].0@);
    assert(j == i);
}

/// A key listed nowhere is not in the represented map.
pub proof fn lemma_map_of_absent(s: Seq<Entry>, k: Seq<char>)
    requires
        !has_key(s, k),
    ensures
        !map_of(s).contains_key(k),
{
}

/// Removing the entry at `i` removes exactly its key from the map.
pub proof fn lemma_map_of_remove(s: Seq<Entry>, i: int)
    requires
        distinct_keys(s),
        0 <= i < s.len(),
    ensures
        distinct_keys(s.remove(i)),
        !has_key(s.remove(i), s[i].0@),
        map_of(s.remove(i)) == map_of(s).remove(s[i].0@),
{
    let t = s.remove(i);
    s.remove_ensures(i);
    assert forall|p: int, q: int| 0 <= p < q < t.len() implies t[p].0@ != t[q].0@ by {
        let p0 = if p < i { p } else { p + 1 };
        let q0 = if q < i { q } else { q + 1 };
        assert(t[p] == s[p0] && t[q] == s[q0]);
    }
    assert forall|j: int| 0 <= j < t.len() implies t[j].0@ != s[i].0@ by {
        let j0 = if j < i { j } else { j + 1 };
        assert(t[j] == s[j0] && j0 != i);
    }
    assert forall|k: Seq<char>| has_key(t, k) implies has_key(s, k) && k != s[i].0@ by {
        let j = choose|j: int| 0 <= j < t.len() && t[j].0@ == k;
        let j0 = if j < i { j } else { j + 1 };
        assert(t[j] == s[j0]);
    }
    assert forall|k: Seq<char>| has_key(s, k) && k != s[i].0@ implies has_key(t, k) by {
        let j0 = choose|j: int| 0 <= j < s.len() && s[j].0@ == k;
        let j = if j0 < i { j0 } else { j0 - 1 };
        assert(t[j] == s[j0]);
    }
    assert(map_of(t) =~= map_of(s).remove(s[i].0@)) by {
        assert forall|k: Seq<char>| map_of(t).contains_key(k) implies map_of(t)[k] == map_of(
            s,
        ).remove(s[i].0@)[k] by {
            let j = key_index(t, k);
            lemma_map_of_at(t, j);
            let j0 = if j < i { j } else { j + 1 };
            assert(t[j] == s[j0]);
            lemma_map_of_at(s, j0);
        }
    }
}

/// Appending an entry with a fresh key inserts exactly that key.
pub proof fn lemma_map_of_push(s: Seq<Entry>, e: Entry)
    requires
        distinct_keys(s),
        !has_key(s, e.0@),
    ensures
        distinct_keys(s.push(e)),
        map_of(s.push(e)) == map_of(s).insert(e.0@, e.1@),
{
    let t = s.push(e);
    assert forall|p: int, q: int| 0 <= p < q < t.len() implies t[p].0@ != t[q].0@ by {
        if q == s.len() {
            assert(t[p] == s[p]);
        } else {
            assert(t[p] == s[p] && t[q] == s[q]);
        }
    }
    assert forall|k: Seq<char>| has_key(t, k) implies has_key(s, k) || k == e.0@ by {
        let j = choose|j: int| 0 <= j < t.len() && t[j].0@ == k;
        if j < s.len() {
            assert(t[j] == s[j]);
        }
    }
    assert forall|k: Seq<char>| has_key(s, k) implies has_key(t, k) by {
        let j = choose|j: int| 0 <= j < s.len() && s[j].0@ == k;
        assert(t[j] == s[j]);
    }
    assert(t[s.len() as int] == e);
    assert(map_of(t) =~= map_of(s).insert(e.0@, e.1@)) by {
        assert forall|k: Seq<char>| map_of(t).contains_key(k) implies map_of(t)[k] == map_of(
            s,
        ).insert(e.0@, e.1@)[k] by {
            let j = key_index(t, k);
            lemma_map_of_at(t, j);
            if k != e.0@ {
                assert(j < s.len());
                assert(t[j] == s[j]);
                lemma_map_of_at(s, j);
            }
        }
    }
}

/// An entry sequence with distinct keys enumerates its own map.
pub proof fn lemma_entries_match_self(s: Seq<Entry>)
    requires
        distinct_keys(s),
    ensures
        entries_match(map_of(s), s),
{
    assert forall|i: int| 0 <= i < s.len() implies map_of(s).contains_key(#[trigger] s[i].0@)
        && map_of(s)[s[i].0@] == s[i].1@ by {
        lemma_map_of_at(s, i);
    }
}

/// The empty entry sequence represents the empty map.
pub proof fn lemma_map_of_empty()
    ensures
        map_of(Seq::<Entry>::empty()) == Map::<Seq<char>, Seq<char>>::empty(),
{
    assert(map_of(Seq::<Entry>::empty()) =~= Map::<Seq<char>, Seq<char>>::empty());
}

} // verus!
