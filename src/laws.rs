//! Laws of the store, stated over the same spec functions as the operations'
//! contracts and proved from them.

use vstd::prelude::*;
use crate::artifacts::{
    count_hash, find_hash, lemma_count_absent, lemma_find_hash, lemma_find_hash_push, load_spec,
    stored, ArtifactFault, ArtifactRowView,
};
use crate::codec::content_hash;
use crate::ledger::{
    bearing_rows, cleared, lemma_holds_target, lemma_sealed_wf, targets_unique, loads_as, logbook_loaded, read_back, recorded, LogbookEntry, erased, holds_target, ids_ascending, next_entry_id, observed,
    sealed, sealed_rows, without_target, BearingRowView, LogbookRowView, ObservationView,
    SlateRowView, VoyageDb,
};
use crate::storage::{dbs_wf, find_voyage, fresh, lemma_find_voyage, on_voyage};
use crate::model::{EntryKindView, VoyageView};
use crate::error::StorageError;

verus! {

/// Storing a payload twice gives one row: the second store leaves the table
/// as the first left it, and a table that did not hold the payload's hash
/// then holds it exactly once. Both stores return `content_hash(json)`.
pub proof fn law_store_twice(a: Seq<ArtifactRowView>, b: Seq<ArtifactRowView>, c: Seq<ArtifactRowView>, json: Seq<u8>)
    requires
        stored(a, b, json),
        stored(b, c, json),
    ensures
        c == b,
        find_hash(a, content_hash(json)) is None ==> count_hash(c, content_hash(json)) == 1,
{
    let h = content_hash(json);
    if find_hash(a, h) is None {
        assert(b.drop_last() =~= a);
        assert(b =~= a.push(b.last()));
        lemma_find_hash_push(a, b.last(), h);
        lemma_count_absent(a, h);
    }
}

/// Storing only ever adds: whatever loaded before a store loads the same after it.
pub proof fn law_artifacts_survive(a: Seq<ArtifactRowView>, b: Seq<ArtifactRowView>, json: Seq<u8>, h: Seq<char>)
    requires
        stored(a, b, json),
        load_spec(a, h) is Ok,
    ensures
        load_spec(b, h) == load_spec(a, h),
{
    if find_hash(a, content_hash(json)) is None {
        assert(b =~= a.push(b.last()));
        lemma_find_hash_push(a, b.last(), h);
        lemma_find_hash(a, h);
        let i = find_hash(a, h)->Some_0;
        assert(b[i] == a[i]);
    }
}

/// Loading by the hash a store returned gives the stored payload back, unless
/// an artifact already held under that hash decodes to something else.
pub proof fn law_store_then_load(a: Seq<ArtifactRowView>, b: Seq<ArtifactRowView>, json: Seq<u8>)
    requires
        stored(a, b, json),
        find_hash(a, content_hash(json)) is Some ==> load_spec(a, content_hash(json)) == Ok::<Seq<u8>, ArtifactFault>(json),
    ensures
        load_spec(b, content_hash(json)) == Ok::<Seq<u8>, ArtifactFault>(json),
{
    let h = content_hash(json);
    if find_hash(a, h) is None {
        assert(b =~= a.push(b.last()));
        lemma_find_hash_push(a, b.last(), h);
    }
}

/// Dropping the rows of a target twice is dropping them once, and none remain.
pub proof fn lemma_without_target(s: Seq<SlateRowView>, t: Seq<char>)
    ensures
        without_target(without_target(s, t), t) == without_target(s, t),
        !holds_target(without_target(s, t), t),
    decreases s.len(),
{
    if s.len() > 0 {
        lemma_without_target(s.drop_last(), t);
        let rest = without_target(s.drop_last(), t);
        if s.last().target != t {
            assert(rest.push(s.last()).drop_last() =~= rest);
        }
    }
}

/// Observing one target twice leaves the slate as observing it once with the
/// second observation: one row for the target, the second one's, last.
pub proof fn law_observe_twice(s: Seq<SlateRowView>, o1: ObservationView, o2: ObservationView)
    requires
        o1.target == o2.target,
    ensures
        observed(observed(s, o1), o2) == observed(s, o2),
        s.len() == 0 ==> observed(observed(s, o1), o2) == seq![
            SlateRowView { target: o2.target, artifact_hash: content_hash(o2.payload), observed_at: o2.observed_at },
        ],
{
    let s1 = observed(s, o1);
    lemma_without_target(s, o1.target);
    assert(s1.drop_last() =~= without_target(s, o1.target));
    if s.len() == 0 {
        assert(observed(s, o2) =~= seq![
            SlateRowView { target: o2.target, artifact_hash: content_hash(o2.payload), observed_at: o2.observed_at },
        ]);
    }
}

/// A second erase of the same target finds nothing and changes nothing.
pub proof fn law_erase_twice(d0: VoyageDb, d1: VoyageDb, d2: VoyageDb, t: Seq<char>, r1: bool, r2: bool)
    requires
        erased(d0, d1, t, r1),
        erased(d1, d2, t, r2),
    ensures
        !r2,
        d2.slate_view() == d1.slate_view(),
{
    lemma_without_target(d0.slate_view(), t);
}

/// Clearing a cleared slate succeeds and leaves it empty.
pub proof fn law_clear_twice(d0: VoyageDb, d1: VoyageDb, d2: VoyageDb)
    requires
        cleared(d0, d1),
        cleared(d1, d2),
    ensures
        d2.slate_view() == Seq::<SlateRowView>::empty(),
        d2.slate_view() == d1.slate_view(),
{
}

/// The bearing rows of `id` in a concatenation are those of each part.
pub proof fn lemma_bearing_rows_concat(x: Seq<BearingRowView>, y: Seq<BearingRowView>, id: u64)
    ensures
        bearing_rows(x + y, id) == bearing_rows(x, id) + bearing_rows(y, id),
    decreases y.len(),
{
    if y.len() == 0 {
        assert(x + y =~= x);
        assert(bearing_rows(x, id) + bearing_rows(y, id) =~= bearing_rows(x, id));
    } else {
        assert((x + y).drop_last() =~= x + y.drop_last());
        lemma_bearing_rows_concat(x, y.drop_last(), id);
        if y.last().logbook_id == id {
            assert(bearing_rows(x, id) + bearing_rows(y.drop_last(), id).push(y.last())
                =~= (bearing_rows(x, id) + bearing_rows(y.drop_last(), id)).push(y.last()));
        }
    }
}

/// Rows that all belong to other entries contribute nothing to `id`.
pub proof fn lemma_bearing_rows_none(b: Seq<BearingRowView>, id: u64)
    requires
        forall|k: int| 0 <= k < b.len() ==> #[trigger] b[k].logbook_id != id,
    ensures
        bearing_rows(b, id) == Seq::<BearingRowView>::empty(),
    decreases b.len(),
{
    if b.len() > 0 {
        assert forall|k: int| 0 <= k < b.drop_last().len() implies #[trigger] b.drop_last()[k].logbook_id != id by {
            assert(b.drop_last()[k] == b[k]);
        }
        lemma_bearing_rows_none(b.drop_last(), id);
    }
}

/// The sealed rows of `id` all belong to `id`.
pub proof fn lemma_bearing_rows_sealed(s: Seq<SlateRowView>, id: u64)
    ensures
        bearing_rows(sealed_rows(s, id), id) == sealed_rows(s, id),
    decreases s.len(),
{
    if s.len() > 0 {
        assert(sealed_rows(s, id).drop_last() =~= sealed_rows(s.drop_last(), id));
        lemma_bearing_rows_sealed(s.drop_last(), id);
        assert(sealed_rows(s.drop_last(), id).push(sealed_rows(s, id).last()) =~= sealed_rows(s, id));
    }
}

/// A successful seal of `N` slate rows empties the slate and adds exactly one
/// logbook entry whose bearing is those `N` rows, in slate order.
pub proof fn law_seal(before: VoyageDb, after: VoyageDb, entry: LogbookRowView)
    requires
        before.wf(),
        sealed(before, after, entry),
    ensures
        after.slate_view().len() == 0,
        after.logbook_view().len() == before.logbook_view().len() + 1,
        after.logbook_view().last() == entry,
        bearing_rows(after.bearings_view(), entry.id) == sealed_rows(before.slate_view(), entry.id),
        bearing_rows(after.bearings_view(), entry.id).len() == before.slate_view().len(),
        forall|k: int|
            0 <= k < before.slate_view().len() ==> (#[trigger] bearing_rows(after.bearings_view(), entry.id)[k]).target
                == before.slate_view()[k].target && bearing_rows(after.bearings_view(), entry.id)[k].artifact_hash
                == before.slate_view()[k].artifact_hash,
{
    let b0 = before.bearings_view();
    let id = entry.id;
    assert forall|k: int| 0 <= k < b0.len() implies #[trigger] b0[k].logbook_id != id by {
        assert(1 <= b0[k].logbook_id < next_entry_id(before.logbook_view()));
    }
    lemma_bearing_rows_none(b0, id);
    lemma_bearing_rows_concat(b0, sealed_rows(before.slate_view(), id), id);
    lemma_bearing_rows_sealed(before.slate_view(), id);
    assert(Seq::<BearingRowView>::empty() + sealed_rows(before.slate_view(), id) =~= sealed_rows(before.slate_view(), id));
}

/// Reading the logbook back after a seal gives the new entry last, with the
/// sealed slate's observations in slate order, and every earlier entry as it
/// was written.
pub proof fn law_seal_read_back(
    before: VoyageDb,
    after: VoyageDb,
    entry: LogbookRowView,
    r: Result<Vec<LogbookEntry>, StorageError>,
)
    requires
        before.wf(),
        sealed(before, after, entry),
        logbook_loaded(after, r),
        r is Ok,
    ensures
        r->Ok_0@.len() == before.logbook_view().len() + 1,
        forall|i: int|
            0 <= i < before.logbook_view().len() ==> (#[trigger] r->Ok_0@[i]).id == before.logbook_view()[i].id,
        r->Ok_0@.last().id == entry.id,
        r->Ok_0@.last().bearing.summary@ == entry.summary,
        r->Ok_0@.last().kind@ == entry.kind,
        r->Ok_0@.last().bearing.observations@.len() == before.slate_view().len(),
        forall|k: int|
            0 <= k < before.slate_view().len() ==> loads_as(
                after.artifacts@,
                before.slate_view()[k].target,
                before.slate_view()[k].artifact_hash,
                before.slate_view()[k].observed_at,
                #[trigger] r->Ok_0@.last().bearing.observations@[k]@,
            ),
{
    law_seal(before, after, entry);
    let v = r->Ok_0@;
    let n = v.len() - 1;
    assert(read_back(after.artifacts@, after.bearings_view(), after.logbook_view()[n], v[n]));
    assert forall|i: int| 0 <= i < before.logbook_view().len() implies (#[trigger] v[i]).id == before.logbook_view()[i].id by {
        assert(read_back(after.artifacts@, after.bearings_view(), after.logbook_view()[i], v[i]));
        assert(after.logbook_view()[i] == before.logbook_view()[i]);
    }
    let obs = v[n].bearing.observations@;
    let rows = sealed_rows(before.slate_view(), entry.id);
    assert forall|k: int| 0 <= k < before.slate_view().len() implies loads_as(
        after.artifacts@,
        before.slate_view()[k].target,
        before.slate_view()[k].artifact_hash,
        before.slate_view()[k].observed_at,
        #[trigger] obs[k]@,
    ) by {
        assert(rows[k].target == before.slate_view()[k].target);
        assert(loads_as(after.artifacts@, rows[k].target, rows[k].artifact_hash, rows[k].observed_at, obs[k]@));
    }
}

/// A failed seal changes nothing: neither the logbook nor the slate.
pub proof fn law_seal_failure(
    before: VoyageDb,
    after: VoyageDb,
    kind: EntryKindView,
    summary: Seq<char>,
    identity: Seq<char>,
    role: Seq<char>,
    method: Seq<char>,
    e: StorageError,
)
    requires
        recorded(before, after, kind, summary, identity, role, method, Err(e)),
    ensures
        after == before,
{
}

/// Logbook identifiers ascend in insertion order, and each seal's entry
/// comes after all earlier ones.
pub proof fn law_monotonic(before: VoyageDb, after: VoyageDb, entry: LogbookRowView)
    requires
        before.wf(),
        sealed(before, after, entry),
    ensures
        ids_ascending(after.logbook_view()),
        forall|i: int| 0 <= i < before.logbook_view().len() ==> #[trigger] before.logbook_view()[i].id < entry.id,
{
    let log0 = before.logbook_view();
    let log = after.logbook_view();
    assert forall|i: int| 0 <= i < log0.len() implies #[trigger] log0[i].id < entry.id by {
        if i < log0.len() - 1 {
            assert(log0[i].id < log0[log0.len() - 1].id);
        }
    }
    assert forall|a: int, c: int| 0 <= a < c < log.len() implies log[a].id < log[c].id by {
        assert(log[a] == log0[a]);
        if c < log.len() - 1 {
            assert(log[c] == log0[c]);
        }
    }
}

/// Creating a voyage and loading it back by its identifier gives the voyage.
pub proof fn law_create_then_load(before: Seq<VoyageDb>, after: Seq<VoyageDb>, v: VoyageView)
    requires
        find_voyage(before, v.id) is None,
        after.len() == before.len() + 1,
        after.drop_last() == before,
        fresh(after.last(), v),
    ensures
        find_voyage(after, v.id) matches Some(i) && after[i].voyage@ == v,
{
    assert(after.drop_last() =~= before);
}

/// An operation on one voyage leaves every other voyage's database, and
/// where it is found, as they were.
pub proof fn law_voyage_isolation<R>(
    before: Seq<VoyageDb>,
    after: Seq<VoyageDb>,
    id: u128,
    r: Result<R, StorageError>,
    holds: spec_fn(VoyageDb, VoyageDb) -> bool,
    other: u128,
)
    requires
        on_voyage(before, after, id, r, holds),
        forall|b: VoyageDb, a: VoyageDb| #[trigger] holds(b, a) ==> a.voyage.id == b.voyage.id,
        other != id,
    ensures
        find_voyage(after, other) == find_voyage(before, other),
        find_voyage(before, other) matches Some(j) ==> after[j] == before[j],
{
    lemma_find_voyage(before, id);
    lemma_find_voyage(before, other);
    if let Some(i) = find_voyage(before, id) {
        assert(holds(before[i], after[i]));
        assert(after =~= before.update(i, after[i]));
        crate::storage::lemma_find_voyage_update(before, i, after[i], other);
    }
}

/// Dropping the rows of a target the slate holds once shortens it by one.
proof fn lemma_without_target_len(s: Seq<SlateRowView>, t: Seq<char>)
    requires
        targets_unique(s),
    ensures
        holds_target(s, t) ==> without_target(s, t).len() == s.len() - 1,
        !holds_target(s, t) ==> without_target(s, t) == s,
    decreases s.len(),
{
    if s.len() > 0 {
        let d = s.drop_last();
        assert(targets_unique(d)) by {
            assert forall|i: int, j: int| 0 <= i < j < d.len() implies d[i].target != d[j].target by {
                assert(d[i] == s[i] && d[j] == s[j]);
            }
        }
        lemma_without_target_len(d, t);
        if s.last().target == t {
            lemma_holds_target(d, t);
            if holds_target(d, t) {
                let i = choose|i: int| 0 <= i < d.len() && #[trigger] d[i].target == t;
                assert(s[i] == d[i]);
            }
        } else {
            assert(d.push(s.last()) =~= s);
        }
    }
}

/// Observing a target the slate already holds keeps the slate's size, and
/// the target's only row is the new one, last; observing a new target adds
/// one row.
pub proof fn law_observe_replaces(s: Seq<SlateRowView>, o: ObservationView)
    requires
        targets_unique(s),
    ensures
        holds_target(s, o.target) ==> observed(s, o).len() == s.len(),
        !holds_target(s, o.target) ==> observed(s, o).len() == s.len() + 1,
        forall|i: int| 0 <= i < observed(s, o).len() && #[trigger] observed(s, o)[i].target == o.target
            ==> i == observed(s, o).len() - 1,
        observed(s, o).last().artifact_hash == content_hash(o.payload),
        observed(s, o).last().observed_at == o.observed_at,
{
    lemma_without_target_len(s, o.target);
    lemma_without_target(s, o.target);
    let w = without_target(s, o.target);
    lemma_holds_target(w, o.target);
    let n = observed(s, o);
    assert forall|i: int| 0 <= i < n.len() && #[trigger] n[i].target == o.target implies i == n.len() - 1 by {
        if i < n.len() - 1 {
            assert(n[i] == w[i]);
        }
    }
}

/// Observing one target twice leaves the second payload loadable under the
/// target's only row, unless an artifact already held under its hash decodes
/// to something else.
pub proof fn law_replace_then_load(
    s: Seq<SlateRowView>,
    a0: Seq<ArtifactRowView>,
    a1: Seq<ArtifactRowView>,
    a2: Seq<ArtifactRowView>,
    o1: ObservationView,
    o2: ObservationView,
)
    requires
        o1.target == o2.target,
        stored(a0, a1, o1.payload),
        stored(a1, a2, o2.payload),
        find_hash(a1, content_hash(o2.payload)) is Some ==> load_spec(a1, content_hash(o2.payload))
            == Ok::<Seq<u8>, ArtifactFault>(o2.payload),
    ensures
        observed(observed(s, o1), o2) == observed(s, o2),
        load_spec(a2, observed(observed(s, o1), o2).last().artifact_hash) == Ok::<Seq<u8>, ArtifactFault>(o2.payload),
{
    law_observe_twice(s, o1, o2);
    law_store_then_load(a1, a2, o2.payload);
}

/// In a storage whose databases are well formed, a successful seal of voyage
/// `id` gives its new entry exactly the slate's rows, in slate order, and
/// empties the slate.
pub proof fn law_storage_seal(
    before: Seq<VoyageDb>,
    after: Seq<VoyageDb>,
    id: u128,
    entry: LogbookRowView,
)
    requires
        dbs_wf(before),
        find_voyage(before, id) is Some,
        sealed(before[find_voyage(before, id)->Some_0], after[find_voyage(before, id)->Some_0], entry),
    ensures
        ({
            let i = find_voyage(before, id)->Some_0;
            &&& after[i].slate_view().len() == 0
            &&& after[i].logbook_view() == before[i].logbook_view().push(entry)
            &&& bearing_rows(after[i].bearings_view(), entry.id) == sealed_rows(before[i].slate_view(), entry.id)
            &&& after[i].wf()
        }),
{
    let i = find_voyage(before, id)->Some_0;
    lemma_find_voyage(before, id);
    assert(before[i].wf());
    law_seal(before[i], after[i], entry);
    lemma_sealed_wf(before[i], after[i], entry);
}

/// Rows sealed into an entry stay its bearing through later seals.
proof fn lemma_bearing_kept(b: Seq<BearingRowView>, s: Seq<SlateRowView>, id: u64, later: u64)
    requires
        id != later,
    ensures
        bearing_rows(b + sealed_rows(s, later), id) == bearing_rows(b, id),
{
    lemma_bearing_rows_concat(b, sealed_rows(s, later), id);
    assert forall|k: int| 0 <= k < sealed_rows(s, later).len() implies #[trigger] sealed_rows(s, later)[k].logbook_id != id by {}
    lemma_bearing_rows_none(sealed_rows(s, later), id);
    assert(bearing_rows(b, id) + Seq::<BearingRowView>::empty() =~= bearing_rows(b, id));
}

/// A run of seals, from a well-formed database `dbs[0]`, with `dbs[k + 1]`
/// the database after the `k`-th seal wrote `entries[k]`: the logbook holds
/// the entries in write order with ascending identifiers, and each entry's
/// bearing is the slate it sealed, in slate order.
pub proof fn law_seals_in_order(dbs: Seq<VoyageDb>, entries: Seq<LogbookRowView>)
    requires
        dbs.len() == entries.len() + 1,
        dbs[0].wf(),
        forall|k: int| 0 <= k < entries.len() ==> sealed(#[trigger] dbs[k], dbs[k + 1], entries[k]),
    ensures
        dbs.last().wf(),
        dbs.last().logbook_view() == dbs[0].logbook_view() + entries,
        ids_ascending(dbs.last().logbook_view()),
        forall|k: int|
            0 <= k < entries.len() ==> bearing_rows(dbs.last().bearings_view(), #[trigger] entries[k].id)
                == sealed_rows(dbs[k].slate_view(), entries[k].id),
    decreases entries.len(),
{
    let n = entries.len();
    if n == 0 {
        assert(dbs[0].logbook_view() + entries =~= dbs[0].logbook_view());
    } else {
        let d = dbs.drop_last();
        let e = entries.drop_last();
        assert forall|k: int| 0 <= k < e.len() implies sealed(#[trigger] d[k], d[k + 1], e[k]) by {
            assert(d[k] == dbs[k] && d[k + 1] == dbs[k + 1] && e[k] == entries[k]);
        }
        law_seals_in_order(d, e);
        let prev = dbs[n - 1];
        let last = dbs[n as int];
        let entry = entries[n - 1];
        assert(prev == d.last());
        assert(sealed(dbs[n - 1], dbs[n as int], entries[n - 1]));
        law_seal(prev, last, entry);
        lemma_sealed_wf(prev, last, entry);
        law_monotonic(prev, last, entry);
        assert(last.logbook_view() =~= dbs[0].logbook_view() + entries);
        assert forall|k: int| 0 <= k < entries.len() implies bearing_rows(last.bearings_view(), #[trigger] entries[k].id)
            == sealed_rows(dbs[k].slate_view(), entries[k].id) by {
            if k < n - 1 {
                let m = dbs[0].logbook_view().len() + k;
                assert(prev.logbook_view()[m] == entries[k]);
                assert(e[k] == entries[k] && d[k] == dbs[k]);
                lemma_bearing_kept(prev.bearings_view(), prev.slate_view(), entries[k].id, entry.id);
            }
        }
    }
}

} // verus!
