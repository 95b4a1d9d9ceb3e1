//! The storage root: one database per voyage, looked up by voyage identifier.
//! Databases never cross-reference; an operation on one voyage leaves every
//! other voyage's database as it was.

use vstd::prelude::*;
use crate::error::StorageError;
use crate::ledger::{
    appended, cleared, erased, logbook_loaded, recorded, slate_loaded, LogbookEntry, Observation,
    SlateRowView, LogbookRowView, BearingRowView, VoyageDb,
};
use crate::artifacts::ArtifactRowView;
use crate::ledger::{lemma_wf_same_tables, now};
use crate::model::{EntryKindView, Steer, Timestamp, Voyage, VoyageStatus, VoyageStatusView, VoyageView};

verus! {

/// The index of the first database whose voyage has identifier `id`.
pub open spec fn find_voyage(dbs: Seq<VoyageDb>, id: u128) -> Option<int>
    decreases dbs.len(),
{
    if dbs.len() == 0 {
        None
    } else {
        match find_voyage(dbs.drop_last(), id) {
            Some(i) => Some(i),
            None => if dbs.last().voyage.id == id {
                Some(dbs.len() - 1)
            } else {
                None
            },
        }
    }
}

/// `after` differs from `before` at most in the database at `i`.
pub open spec fn others_unchanged(before: Seq<VoyageDb>, after: Seq<VoyageDb>, i: int) -> bool {
    &&& after.len() == before.len()
    &&& forall|j: int| 0 <= j < before.len() && j != i ==> after[j] == before[j]
}

/// A database freshly created for voyage `v`: nothing but the voyage row.
pub open spec fn fresh(db: VoyageDb, v: VoyageView) -> bool {
    &&& db.voyage@ == v
    &&& db.artifacts@ == Seq::<ArtifactRowView>::empty()
    &&& db.slate_view() == Seq::<SlateRowView>::empty()
    &&& db.logbook_view() == Seq::<LogbookRowView>::empty()
    &&& db.bearings_view() == Seq::<BearingRowView>::empty()
    &&& db.wf()
}

/// Voyages in ascending order of creation time.
pub open spec fn sorted_by_creation(v: Seq<Voyage>) -> bool {
    forall|i: int, j: int| 0 <= i < j < v.len() ==> v[i].created_at.nanos <= v[j].created_at.nanos
}

/// The outcome of a per-voyage operation: `VoyageNotFound` with nothing
/// changed where the voyage is absent, else `holds` of its database before
/// and after, with every other database unchanged.
pub open spec fn on_voyage<R>(
    before: Seq<VoyageDb>,
    after: Seq<VoyageDb>,
    id: u128,
    r: Result<R, StorageError>,
    holds: spec_fn(VoyageDb, VoyageDb) -> bool,
) -> bool {
    match find_voyage(before, id) {
        None => r == Err::<R, StorageError>(StorageError::VoyageNotFound(id)) && after == before,
        Some(i) => {
            &&& others_unchanged(before, after, i)
            &&& forall|x: u128| #[trigger] find_voyage(after, x) == find_voyage(before, x)
            &&& holds(before[i], after[i])
        },
    }
}

/// A match in a prefix is the first match of the whole.
proof fn lemma_find_voyage_prefix(dbs: Seq<VoyageDb>, n: int, id: u128)
    requires
        0 <= n <= dbs.len(),
        find_voyage(dbs.take(n), id) is Some,
    ensures
        find_voyage(dbs, id) == find_voyage(dbs.take(n), id),
    decreases dbs.len() - n,
{
    if n < dbs.len() {
        assert(dbs.take(n + 1).drop_last() =~= dbs.take(n));
        lemma_find_voyage_prefix(dbs, n + 1, id);
    } else {
        assert(dbs.take(n) =~= dbs);
    }
}

/// A found index is in range and holds the identifier; an absent one is held nowhere.
pub proof fn lemma_find_voyage(dbs: Seq<VoyageDb>, id: u128)
    ensures
        find_voyage(dbs, id) matches Some(i) ==> 0 <= i < dbs.len() && dbs[i].voyage.id == id,
        find_voyage(dbs, id) is None ==> forall|j: int| 0 <= j < dbs.len() ==> dbs[j].voyage.id != id,
    decreases dbs.len(),
{
    if dbs.len() > 0 {
        lemma_find_voyage(dbs.drop_last(), id);
        if find_voyage(dbs, id) is None {
            assert forall|j: int| 0 <= j < dbs.len() implies dbs[j].voyage.id != id by {
                if j < dbs.len() - 1 {
                    assert(dbs.drop_last()[j] == dbs[j]);
                }
            }
        }
    }
}

/// Replacing the database at a found index keeps every lookup.
pub proof fn lemma_find_voyage_update(dbs: Seq<VoyageDb>, i: int, db: VoyageDb, id: u128)
    requires
        0 <= i < dbs.len(),
        db.voyage.id == dbs[i].voyage.id,
    ensures
        find_voyage(dbs.update(i, db), id) == find_voyage(dbs, id),
    decreases dbs.len(),
{
    let u = dbs.update(i, db);
    if i < dbs.len() - 1 {
        assert(u.drop_last() =~= dbs.drop_last().update(i, db));
        lemma_find_voyage_update(dbs.drop_last(), i, db, id);
    } else {
        assert(u.drop_last() =~= dbs.drop_last());
    }
}

/// The outcome of a read of one voyage: `VoyageNotFound` where it is absent,
/// else `holds` of its database.
pub open spec fn on_voyage_read<R>(
    dbs: Seq<VoyageDb>,
    id: u128,
    r: Result<R, StorageError>,
    holds: spec_fn(VoyageDb) -> bool,
) -> bool {
    match find_voyage(dbs, id) {
        None => r == Err::<R, StorageError>(StorageError::VoyageNotFound(id)),
        Some(i) => holds(dbs[i]),
    }
}

/// The voyages of `dbs`, one per database, in storage order.
pub open spec fn voyage_views(dbs: Seq<VoyageDb>) -> Seq<VoyageView> {
    dbs.map_values(|d: VoyageDb| d.voyage@)
}

/// Inserting at an index adds the element to the multiset.
proof fn lemma_insert_multiset<A>(s: Seq<A>, k: int, x: A)
    requires
        0 <= k <= s.len(),
    ensures
        s.insert(k, x).to_multiset() =~= s.to_multiset().insert(x),
{
    broadcast use vstd::seq_lib::group_to_multiset_ensures;
    let t = s.insert(k, x);
    assert(t.remove(k) =~= s);
    assert(t[k] == x);
    assert(t.to_multiset().count(x) > 0) by {
        assert(t.contains(x));
    }
    assert(s.to_multiset() =~= t.to_multiset().remove(x));
}

/// Replacing a database by one of the same voyage keeps every lookup.
proof fn lemma_find_voyage_update_all(dbs: Seq<VoyageDb>, i: int, db: VoyageDb)
    requires
        0 <= i < dbs.len(),
        db.voyage.id == dbs[i].voyage.id,
    ensures
        forall|x: u128| #[trigger] find_voyage(dbs.update(i, db), x) == find_voyage(dbs, x),
{
    assert forall|x: u128| #[trigger] find_voyage(dbs.update(i, db), x) == find_voyage(dbs, x) by {
        lemma_find_voyage_update(dbs, i, db, x);
    }
}

/// Every database is well formed, and no two belong to the same voyage.
pub open spec fn dbs_wf(dbs: Seq<VoyageDb>) -> bool {
    &&& forall|i: int| 0 <= i < dbs.len() ==> #[trigger] dbs[i].wf()
    &&& forall|i: int, j: int| 0 <= i < j < dbs.len() ==> dbs[i].voyage.id != dbs[j].voyage.id
}

/// Replacing a database by a well-formed one of the same voyage keeps `dbs_wf`.
proof fn lemma_update_wf(dbs: Seq<VoyageDb>, i: int, db: VoyageDb)
    requires
        dbs_wf(dbs),
        0 <= i < dbs.len(),
        db.wf(),
        db.voyage.id == dbs[i].voyage.id,
    ensures
        dbs_wf(dbs.update(i, db)),
{
    let u = dbs.update(i, db);
    assert forall|k: int| 0 <= k < u.len() implies #[trigger] u[k].wf() by {
        if k != i {
            assert(u[k] == dbs[k]);
        }
    }
}

/// The voyage databases under one storage root.
pub struct Storage {
    pub voyages: Vec<VoyageDb>,
}

impl Storage {
    /// Every database is well formed and voyage identifiers are unique.
    pub open spec fn wf(&self) -> bool {
        dbs_wf(self.voyages@)
    }

    /// A storage root holding no voyages.
    pub fn new() -> (r: Storage)
        ensures
            r.voyages@ == Seq::<VoyageDb>::empty(),
            r.wf(),
    {
        Storage { voyages: Vec::new() }
    }

    /// Adds a database read from disk; refused where its tables break `wf`
    /// or its voyage is already present.
    pub fn add_loaded(&mut self, db: VoyageDb) -> (r: Result<(), StorageError>)
        ensures
            old(self).wf() ==> final(self).wf(),
            match r {
                Ok(()) => final(self).voyages@ == old(self).voyages@.push(db),
                Err(e) => final(self).voyages@ == old(self).voyages@ && if !db.wf() {
                    e is Database
                } else {
                    e == StorageError::VoyageAlreadyExists(db.voyage.id)
                },
            },
            (r is Ok) == (db.wf() && find_voyage(old(self).voyages@, db.voyage.id) is None),
    {
        if !db.check_wf() {
            return Err(StorageError::Database(String::from_str("the voyage's tables are inconsistent")));
        }
        let id = db.voyage.id;
        if self.position(id).is_some() {
            return Err(StorageError::VoyageAlreadyExists(id));
        }
        proof {
            lemma_find_voyage(self.voyages@, id);
        }
        self.voyages.push(db);
        proof {
            let d = self.voyages@;
            let o = old(self).voyages@;
            if dbs_wf(o) {
                assert forall|k: int| 0 <= k < d.len() implies #[trigger] d[k].wf() by {
                    if k < o.len() {
                        assert(d[k] == o[k]);
                    }
                }
                assert forall|a: int, b: int| 0 <= a < b < d.len() implies d[a].voyage.id != d[b].voyage.id by {
                    assert(d[a] == o[a]);
                }
            }
        }
        Ok(())
    }

    /// The index of the database of voyage `id`.
    fn position(&self, id: u128) -> (r: Option<usize>)
        ensures
            match r {
                Some(i) => find_voyage(self.voyages@, id) == Some(i as int) && i < self.voyages@.len()
                    && self.voyages@[i as int].voyage.id == id,
                None => find_voyage(self.voyages@, id) is None,
            },
    {
        let mut i: usize = 0;
        while i < self.voyages.len()
            invariant
                i <= self.voyages.len(),
                find_voyage(self.voyages@.take(i as int), id) is None,
            decreases self.voyages.len() - i,
        {
            proof {
                assert(self.voyages@.take(i as int + 1).drop_last() =~= self.voyages@.take(i as int));
            }
            if self.voyages[i].voyage.id == id {
                proof {
                    lemma_find_voyage_prefix(self.voyages@, i as int + 1, id);
                }
                return Some(i);
            }
            i = i + 1;
        }
        assert(self.voyages@.take(i as int) =~= self.voyages@);
        None
    }

    /// Creates the database of a new voyage holding its voyage row.
    pub fn create_voyage(&mut self, voyage: &Voyage) -> (r: Result<(), StorageError>)
        ensures
            old(self).wf() ==> final(self).wf(),
            match find_voyage(old(self).voyages@, voyage.id) {
                Some(_) => r == Err::<(), StorageError>(StorageError::VoyageAlreadyExists(voyage.id))
                    && final(self).voyages@ == old(self).voyages@,
                None => {
                    &&& r is Ok
                    &&& final(self).voyages@.len() == old(self).voyages@.len() + 1
                    &&& final(self).voyages@.drop_last() == old(self).voyages@
                    &&& fresh(final(self).voyages@.last(), voyage@)
                },
            },
    {
        match self.position(voyage.id) {
            Some(_) => Err(StorageError::VoyageAlreadyExists(voyage.id)),
            None => {
                let db = VoyageDb::new(voyage.duplicate());
                proof {
                    lemma_find_voyage(self.voyages@, voyage.id);
                }
                self.voyages.push(db);
                assert(self.voyages@.drop_last() =~= old(self).voyages@);
                proof {
                    let d = self.voyages@;
                    let o = old(self).voyages@;
                    if dbs_wf(o) {
                        assert forall|k: int| 0 <= k < d.len() implies #[trigger] d[k].wf() by {
                            if k < o.len() {
                                assert(d[k] == o[k]);
                            }
                        }
                        assert forall|a: int, b: int| 0 <= a < b < d.len() implies d[a].voyage.id != d[b].voyage.id by {
                            assert(d[a] == o[a]);
                        }
                    }
                }
                Ok(())
            },
        }
    }

    /// Reads the voyage row of voyage `id`.
    pub fn load_voyage(&self, id: u128) -> (r: Result<Voyage, StorageError>)
        ensures
            match find_voyage(self.voyages@, id) {
                None => r == Err::<Voyage, StorageError>(StorageError::VoyageNotFound(id)),
                Some(i) => r matches Ok(v) && v@ == self.voyages@[i].voyage@,
            },
    {
        match self.position(id) {
            None => Err(StorageError::VoyageNotFound(id)),
            Some(i) => Ok(self.voyages[i].voyage.duplicate()),
        }
    }

    /// Takes the database at `i` out, to be put back by `put_back`.
    fn take_out(&mut self, i: usize) -> (db: VoyageDb)
        requires
            i < old(self).voyages.len(),
        ensures
            db == old(self).voyages@[i as int],
            final(self).voyages@ == old(self).voyages@.remove(i as int),
    {
        self.voyages.remove(i)
    }

    /// Puts a database back at `i`.
    fn put_back(&mut self, i: usize, db: VoyageDb)
        requires
            i <= old(self).voyages.len(),
        ensures
            final(self).voyages@ == old(self).voyages@.insert(i as int, db),
    {
        self.voyages.insert(i, db);
    }

    /// Rewrites the status of a voyage's row; its identifier, intent and
    /// creation time stay as stored. An ended voyage cannot become active
    /// again, and no end is recorded before the voyage's creation.
    pub fn update_voyage(&mut self, voyage: &Voyage) -> (r: Result<(), StorageError>)
        ensures
            old(self).wf() ==> final(self).wf(),
            on_voyage(
                old(self).voyages@,
                final(self).voyages@,
                voyage.id,
                r,
                |b: VoyageDb, a: VoyageDb|
                    if b.voyage.status@ is Ended && voyage.status@ is Active {
                        r == Err::<(), StorageError>(StorageError::VoyageAlreadyEnded(voyage.id)) && a == b
                    } else if voyage.status@ matches VoyageStatusView::Ended { ended_at, .. }
                        && ended_at.nanos < b.voyage.created_at.nanos {
                        r == Err::<(), StorageError>(StorageError::EndBeforeCreation(voyage.id)) && a == b
                    } else {
                        &&& r is Ok
                        &&& a.voyage.id == b.voyage.id
                        &&& a.voyage.intent@ == b.voyage.intent@
                        &&& a.voyage.created_at == b.voyage.created_at
                        &&& a.voyage.status@ == voyage.status@
                        &&& a.artifacts == b.artifacts
                        &&& a.slate == b.slate
                        &&& a.logbook == b.logbook
                        &&& a.bearings == b.bearings
                    },
            ),
    {
        match self.position(voyage.id) {
            None => Err(StorageError::VoyageNotFound(voyage.id)),
            Some(i) => {
                let stored = &self.voyages[i].voyage;
                if stored.status.is_ended() && !voyage.status.is_ended() {
                    return Err(StorageError::VoyageAlreadyEnded(voyage.id));
                }
                if let VoyageStatus::Ended { ended_at, .. } = &voyage.status {
                    if ended_at.is_before(&stored.created_at) {
                        return Err(StorageError::EndBeforeCreation(voyage.id));
                    }
                }
                let ghost before = self.voyages@;
                let mut db = self.take_out(i);
                db.voyage.status = voyage.status.duplicate();
                self.put_back(i, db);
                assert(self.voyages@ =~= before.update(i as int, db));
                proof {
                    lemma_find_voyage_update_all(before, i as int, db);
                    if dbs_wf(before) {
                        assert(before[i as int].wf());
                        assert(db.slate_view() == before[i as int].slate_view());
                        lemma_wf_same_tables(before[i as int], db);
                        lemma_update_wf(before, i as int, db);
                    }
                }
                Ok(())
            },
        }
    }

    /// Puts an observation on a voyage's slate; see `VoyageDb::append_slate`.
    pub fn append_slate(&mut self, voyage_id: u128, observation: &Observation) -> (r: Result<(), StorageError>)
        ensures
            old(self).wf() ==> final(self).wf(),
            on_voyage(
                old(self).voyages@,
                final(self).voyages@,
                voyage_id,
                r,
                |b: VoyageDb, a: VoyageDb| appended(b, a, observation@, r),
            ),
    {
        match self.position(voyage_id) {
            None => Err(StorageError::VoyageNotFound(voyage_id)),
            Some(i) => {
                let ghost before = self.voyages@;
                let mut db = self.take_out(i);
                let r = db.append_slate(observation);
                self.put_back(i, db);
                assert(self.voyages@ =~= before.update(i as int, db));
                proof {
                    lemma_find_voyage_update_all(before, i as int, db);
                    if dbs_wf(before) {
                        assert(before[i as int].wf());
                        lemma_update_wf(before, i as int, db);
                    }
                }
                r
            },
        }
    }

    /// Reads a voyage's slate; see `VoyageDb::load_slate`.
    pub fn load_slate(&self, voyage_id: u128) -> (r: Result<Vec<Observation>, StorageError>)
        ensures
            on_voyage_read(self.voyages@, voyage_id, r, |d: VoyageDb| slate_loaded(d, r)),
    {
        match self.position(voyage_id) {
            None => Err(StorageError::VoyageNotFound(voyage_id)),
            Some(i) => self.voyages[i].load_slate(),
        }
    }

    /// Clears a voyage's slate without sealing; idempotent.
    pub fn clear_slate(&mut self, voyage_id: u128) -> (r: Result<(), StorageError>)
        ensures
            old(self).wf() ==> final(self).wf(),
            on_voyage(
                old(self).voyages@,
                final(self).voyages@,
                voyage_id,
                r,
                |b: VoyageDb, a: VoyageDb| r is Ok && cleared(b, a),
            ),
    {
        match self.position(voyage_id) {
            None => Err(StorageError::VoyageNotFound(voyage_id)),
            Some(i) => {
                let ghost before = self.voyages@;
                let mut db = self.take_out(i);
                db.clear_slate();
                self.put_back(i, db);
                assert(self.voyages@ =~= before.update(i as int, db));
                proof {
                    lemma_find_voyage_update_all(before, i as int, db);
                    if dbs_wf(before) {
                        assert(before[i as int].wf());
                        lemma_update_wf(before, i as int, db);
                    }
                }
                Ok(())
            },
        }
    }

    /// Erases one target from a voyage's slate; `Ok(false)` where it was absent.
    pub fn erase_slate(&mut self, voyage_id: u128, target: &String) -> (r: Result<bool, StorageError>)
        ensures
            old(self).wf() ==> final(self).wf(),
            on_voyage(
                old(self).voyages@,
                final(self).voyages@,
                voyage_id,
                r,
                |b: VoyageDb, a: VoyageDb| r matches Ok(e) && erased(b, a, target@, e),
            ),
    {
        match self.position(voyage_id) {
            None => Err(StorageError::VoyageNotFound(voyage_id)),
            Some(i) => {
                let ghost before = self.voyages@;
                let mut db = self.take_out(i);
                let e = db.erase_slate(target);
                self.put_back(i, db);
                assert(self.voyages@ =~= before.update(i as int, db));
                proof {
                    lemma_find_voyage_update_all(before, i as int, db);
                    if dbs_wf(before) {
                        assert(before[i as int].wf());
                        lemma_update_wf(before, i as int, db);
                    }
                }
                Ok(e)
            },
        }
    }

    /// Seals a voyage's slate into a steer entry; see `VoyageDb::record_steer`.
    pub fn record_steer(
        &mut self,
        voyage_id: u128,
        steer: &Steer,
        summary: &str,
        identity: &str,
        role: &str,
        method: &str,
    ) -> (r: Result<(), StorageError>)
        ensures
            old(self).wf() ==> final(self).wf(),
            on_voyage(
                old(self).voyages@,
                final(self).voyages@,
                voyage_id,
                r,
                |b: VoyageDb, a: VoyageDb|
                    recorded(
                        b,
                        a,
                        EntryKindView::Steer(steer@),
                        summary@,
                        identity@,
                        role@,
                        method@,
                        match r {
                            Ok(()) => Ok(a.logbook_view().last().id),
                            Err(e) => Err(e),
                        },
                    ),
            ),
    {
        match self.position(voyage_id) {
            None => Err(StorageError::VoyageNotFound(voyage_id)),
            Some(i) => {
                let ghost before = self.voyages@;
                let mut db = self.take_out(i);
                let r = db.record_steer(steer, summary, identity, role, method);
                self.put_back(i, db);
                assert(self.voyages@ =~= before.update(i as int, db));
                proof {
                    lemma_find_voyage_update_all(before, i as int, db);
                    if dbs_wf(before) {
                        assert(before[i as int].wf());
                        lemma_update_wf(before, i as int, db);
                    }
                }
                match r {
                    Ok(_) => Ok(()),
                    Err(e) => Err(e),
                }
            },
        }
    }

    /// Seals a voyage's slate into a log entry; see `VoyageDb::record_log`.
    pub fn record_log(
        &mut self,
        voyage_id: u128,
        status: &str,
        summary: &str,
        identity: &str,
        role: &str,
        method: &str,
    ) -> (r: Result<(), StorageError>)
        ensures
            old(self).wf() ==> final(self).wf(),
            on_voyage(
                old(self).voyages@,
                final(self).voyages@,
                voyage_id,
                r,
                |b: VoyageDb, a: VoyageDb|
                    recorded(
                        b,
                        a,
                        EntryKindView::Log(status@),
                        summary@,
                        identity@,
                        role@,
                        method@,
                        match r {
                            Ok(()) => Ok(a.logbook_view().last().id),
                            Err(e) => Err(e),
                        },
                    ),
            ),
    {
        match self.position(voyage_id) {
            None => Err(StorageError::VoyageNotFound(voyage_id)),
            Some(i) => {
                let ghost before = self.voyages@;
                let mut db = self.take_out(i);
                let r = db.record_log(status, summary, identity, role, method);
                self.put_back(i, db);
                assert(self.voyages@ =~= before.update(i as int, db));
                proof {
                    lemma_find_voyage_update_all(before, i as int, db);
                    if dbs_wf(before) {
                        assert(before[i as int].wf());
                        lemma_update_wf(before, i as int, db);
                    }
                }
                match r {
                    Ok(_) => Ok(()),
                    Err(e) => Err(e),
                }
            },
        }
    }

    /// Reads a voyage's logbook; see `VoyageDb::load_logbook`.
    pub fn load_logbook(&self, voyage_id: u128) -> (r: Result<Vec<LogbookEntry>, StorageError>)
        ensures
            on_voyage_read(self.voyages@, voyage_id, r, |d: VoyageDb| logbook_loaded(d, r)),
    {
        match self.position(voyage_id) {
            None => Err(StorageError::VoyageNotFound(voyage_id)),
            Some(i) => self.voyages[i].load_logbook(),
        }
    }

    /// Ends an active voyage at time `t`, with an optional outcome. Ending is
    /// terminal: a voyage that has ended cannot be ended again. The end is
    /// recorded at `t`, or at the voyage's creation where `t` is earlier.
    pub fn end_voyage_at(&mut self, voyage_id: u128, status: Option<String>, t: Timestamp) -> (r: Result<(), StorageError>)
        ensures
            old(self).wf() ==> final(self).wf(),
            on_voyage(
                old(self).voyages@,
                final(self).voyages@,
                voyage_id,
                r,
                |b: VoyageDb, a: VoyageDb|
                    if b.voyage.status@ is Ended {
                        r == Err::<(), StorageError>(StorageError::VoyageAlreadyEnded(voyage_id)) && a == b
                    } else {
                        &&& r is Ok
                        &&& a.voyage.id == b.voyage.id
                        &&& a.voyage.intent == b.voyage.intent
                        &&& a.voyage.created_at == b.voyage.created_at
                        &&& a.voyage.status@ matches VoyageStatusView::Ended { ended_at, status: s }
                        &&& ended_at.nanos == if t.nanos < b.voyage.created_at.nanos {
                            b.voyage.created_at.nanos
                        } else {
                            t.nanos
                        }
                        &&& s == match status {
                            Some(t) => Some(t@),
                            None => None::<Seq<char>>,
                        }
                        &&& a.artifacts == b.artifacts
                        &&& a.slate == b.slate
                        &&& a.logbook == b.logbook
                        &&& a.bearings == b.bearings
                    },
            ),
    {
        match self.position(voyage_id) {
            None => Err(StorageError::VoyageNotFound(voyage_id)),
            Some(i) => {
                if self.voyages[i].voyage.status.is_ended() {
                    return Err(StorageError::VoyageAlreadyEnded(voyage_id));
                }
                let ghost before = self.voyages@;
                let mut db = self.take_out(i);
                let ended_at = if t.is_before(&db.voyage.created_at) {
                    db.voyage.created_at
                } else {
                    t
                };
                db.voyage.status = VoyageStatus::Ended { ended_at, status };
                self.put_back(i, db);
                assert(self.voyages@ =~= before.update(i as int, db));
                proof {
                    lemma_find_voyage_update_all(before, i as int, db);
                    if dbs_wf(before) {
                        assert(before[i as int].wf());
                        assert(db.slate_view() == before[i as int].slate_view());
                        lemma_wf_same_tables(before[i as int], db);
                        lemma_update_wf(before, i as int, db);
                    }
                }
                Ok(())
            },
        }
    }

    /// Ends an active voyage now, with an optional outcome; see `end_voyage_at`.
    /// The end is never recorded before the voyage's creation.
    pub fn end_voyage(&mut self, voyage_id: u128, status: Option<String>) -> (r: Result<(), StorageError>)
        ensures
            old(self).wf() ==> final(self).wf(),
            on_voyage(
                old(self).voyages@,
                final(self).voyages@,
                voyage_id,
                r,
                |b: VoyageDb, a: VoyageDb|
                    if b.voyage.status@ is Ended {
                        r == Err::<(), StorageError>(StorageError::VoyageAlreadyEnded(voyage_id)) && a == b
                    } else {
                        &&& r is Ok
                        &&& a.voyage.id == b.voyage.id
                        &&& a.voyage.intent == b.voyage.intent
                        &&& a.voyage.created_at == b.voyage.created_at
                        &&& a.voyage.status@ matches VoyageStatusView::Ended { ended_at, status: s }
                        &&& ended_at.nanos >= b.voyage.created_at.nanos
                        &&& s == match status {
                            Some(t) => Some(t@),
                            None => None::<Seq<char>>,
                        }
                        &&& a.artifacts == b.artifacts
                        &&& a.slate == b.slate
                        &&& a.logbook == b.logbook
                        &&& a.bearings == b.bearings
                    },
            ),
    {
        let t = now();
        self.end_voyage_at(voyage_id, status, t)
    }

    /// Every stored voyage, in ascending order of creation time; voyages
    /// created at the same instant keep their storage order.
    pub fn list_voyages(&self) -> (r: Vec<Voyage>)
        ensures
            sorted_by_creation(r@),
            r@.map_values(|v: Voyage| v@).to_multiset() == voyage_views(self.voyages@).to_multiset(),
    {
        let ghost all = voyage_views(self.voyages@);
        let mut out: Vec<Voyage> = Vec::new();
        assert(out@.map_values(|v: Voyage| v@) =~= all.take(0));
        let mut i: usize = 0;
        while i < self.voyages.len()
            invariant
                i <= self.voyages.len(),
                all == voyage_views(self.voyages@),
                sorted_by_creation(out@),
                out@.map_values(|v: Voyage| v@).to_multiset() == all.take(i as int).to_multiset(),
            decreases self.voyages.len() - i,
        {
            let v = self.voyages[i].voyage.duplicate();
            let mut k: usize = 0;
            while k < out.len() && !v.created_at.is_before(&out[k].created_at)
                invariant
                    k <= out.len(),
                    forall|m: int| 0 <= m < k ==> out@[m].created_at.nanos <= v.created_at.nanos,
                decreases out.len() - k,
            {
                k = k + 1;
            }
            let ghost before = out@;
            out.insert(k, v);
            proof {
                assert(out@ == before.insert(k as int, v));
                assert(out@.map_values(|w: Voyage| w@) =~= before.map_values(|w: Voyage| w@).insert(k as int, v@));
                lemma_insert_multiset(before.map_values(|w: Voyage| w@), k as int, v@);
                assert(all.take(i as int + 1) =~= all.take(i as int).push(v@));
                broadcast use vstd::seq_lib::group_to_multiset_ensures;
                assert forall|a: int, c: int| 0 <= a < c < out@.len() implies out@[a].created_at.nanos
                    <= out@[c].created_at.nanos by {
                    if c < k {
                    } else if c == k {
                    } else if a < k {
                        assert(out@[c] == before[c - 1]);
                        if k < before.len() {
                            assert(before[k as int].created_at.nanos <= before[c - 1].created_at.nanos);
                        }
                    } else if a == k {
                        assert(out@[c] == before[c - 1]);
                        assert(before[k as int].created_at.nanos <= before[c - 1].created_at.nanos);
                    } else {
                        assert(out@[a] == before[a - 1] && out@[c] == before[c - 1]);
                    }
                }
            }
            i = i + 1;
        }
        assert(all.take(i as int) =~= all);
        out
    }
}

} // verus!
