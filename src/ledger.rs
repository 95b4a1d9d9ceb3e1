//! One voyage's database: its voyage row, artifacts, slate, logbook and
//! bearing observations, with the seal that moves the slate into the logbook.

use vstd::prelude::*;
use crate::artifacts::{load_spec, stored, ArtifactFault, ArtifactRowView, ArtifactTable};
use crate::codec::{content_hash, zstd_frame, COMPRESSION_LEVEL};
use crate::error::StorageError;
use crate::model::{EntryKind, EntryKindView, Steer, Timestamp, Voyage};

verus! {

/// Relies on jiff::Timestamp::now: the current time, in nanoseconds since the
/// Unix epoch. Nothing is known of its value.
#[verifier::external_body]
pub(crate) fn now() -> (r: Timestamp) {
    Timestamp { nanos: jiff::Timestamp::now().as_nanosecond() }
}

} // verus!

verus! {

/// An observation as the store holds it: the canonical JSON text of its
/// target, the canonical JSON bytes of its payload, and when it was made.
#[derive(Clone, Debug, PartialEq, Eq)]
pub struct Observation {
    pub target: String,
    pub payload: Vec<u8>,
    pub observed_at: Timestamp,
}

/// The plain-value view of a stored observation.
pub ghost struct ObservationView {
    pub target: Seq<char>,
    pub payload: Seq<u8>,
    pub observed_at: Timestamp,
}

impl View for Observation {
    type V = ObservationView;

    open spec fn view(&self) -> ObservationView {
        ObservationView { target: self.target@, payload: self.payload@, observed_at: self.observed_at }
    }
}

/// A pending observation on the slate; the target is the row's key.
#[derive(Clone, Debug)]
pub struct SlateRow {
    pub target: String,
    pub artifact_hash: String,
    pub observed_at: Timestamp,
}

/// The plain-value view of a slate row.
pub ghost struct SlateRowView {
    pub target: Seq<char>,
    pub artifact_hash: Seq<char>,
    pub observed_at: Timestamp,
}

impl View for SlateRow {
    type V = SlateRowView;

    open spec fn view(&self) -> SlateRowView {
        SlateRowView { target: self.target@, artifact_hash: self.artifact_hash@, observed_at: self.observed_at }
    }
}

/// A sealed logbook row.
#[derive(Clone, Debug)]
pub struct LogbookRow {
    pub id: u64,
    pub recorded_at: Timestamp,
    pub identity: String,
    pub kind: EntryKind,
    pub summary: String,
    pub role: String,
    pub method: String,
}

/// The plain-value view of a logbook row.
pub ghost struct LogbookRowView {
    pub id: u64,
    pub recorded_at: Timestamp,
    pub identity: Seq<char>,
    pub kind: EntryKindView,
    pub summary: Seq<char>,
    pub role: Seq<char>,
    pub method: Seq<char>,
}

impl View for LogbookRow {
    type V = LogbookRowView;

    open spec fn view(&self) -> LogbookRowView {
        LogbookRowView {
            id: self.id,
            recorded_at: self.recorded_at,
            identity: self.identity@,
            kind: self.kind@,
            summary: self.summary@,
            role: self.role@,
            method: self.method@,
        }
    }
}

/// A slate row as it was sealed into a logbook entry.
#[derive(Clone, Debug)]
pub struct BearingRow {
    pub logbook_id: u64,
    pub target: String,
    pub artifact_hash: String,
    pub observed_at: Timestamp,
}

/// The plain-value view of a bearing row.
pub ghost struct BearingRowView {
    pub logbook_id: u64,
    pub target: Seq<char>,
    pub artifact_hash: Seq<char>,
    pub observed_at: Timestamp,
}

impl View for BearingRow {
    type V = BearingRowView;

    open spec fn view(&self) -> BearingRowView {
        BearingRowView {
            logbook_id: self.logbook_id,
            target: self.target@,
            artifact_hash: self.artifact_hash@,
            observed_at: self.observed_at,
        }
    }
}

/// The slate without the row keyed by `t`, order kept.
pub open spec fn without_target(s: Seq<SlateRowView>, t: Seq<char>) -> Seq<SlateRowView>
    decreases s.len(),
{
    if s.len() == 0 {
        s
    } else {
        let rest = without_target(s.drop_last(), t);
        if s.last().target == t {
            rest
        } else {
            rest.push(s.last())
        }
    }
}

/// Whether some slate row is keyed by `t`.
pub open spec fn holds_target(s: Seq<SlateRowView>, t: Seq<char>) -> bool
    decreases s.len(),
{
    s.len() > 0 && (holds_target(s.drop_last(), t) || s.last().target == t)
}

/// No two slate rows share a target: the target is the slate's key.
pub open spec fn targets_unique(s: Seq<SlateRowView>) -> bool {
    forall|i: int, j: int| 0 <= i < j < s.len() ==> s[i].target != s[j].target
}

/// `holds_target` says that some row has the target.
pub proof fn lemma_holds_target(s: Seq<SlateRowView>, t: Seq<char>)
    ensures
        holds_target(s, t) <==> exists|i: int| 0 <= i < s.len() && #[trigger] s[i].target == t,
    decreases s.len(),
{
    if s.len() > 0 {
        lemma_holds_target(s.drop_last(), t);
        if holds_target(s.drop_last(), t) {
            let i = choose|i: int| 0 <= i < s.drop_last().len() && #[trigger] s.drop_last()[i].target == t;
            assert(s[i] == s.drop_last()[i]);
        }
        if exists|i: int| 0 <= i < s.len() && #[trigger] s[i].target == t {
            let i = choose|i: int| 0 <= i < s.len() && #[trigger] s[i].target == t;
            if i < s.len() - 1 {
                assert(s.drop_last()[i] == s[i]);
            }
        }
    }
}

/// Every row left after dropping a target's rows is a row of the slate.
pub proof fn lemma_without_target_rows(s: Seq<SlateRowView>, t: Seq<char>)
    ensures
        forall|k: int| 0 <= k < without_target(s, t).len() ==> exists|j: int| 0 <= j < s.len() && #[trigger] without_target(s, t)[k] == s[j] && s[j].target != t,
    decreases s.len(),
{
    if s.len() > 0 {
        lemma_without_target_rows(s.drop_last(), t);
        let w = without_target(s, t);
        let w0 = without_target(s.drop_last(), t);
        assert forall|k: int| 0 <= k < w.len() implies exists|j: int| 0 <= j < s.len() && #[trigger] w[k] == s[j] && s[j].target != t by {
            if k < w0.len() {
                let j = choose|j: int| 0 <= j < s.drop_last().len() && #[trigger] w0[k] == s.drop_last()[j] && s.drop_last()[j].target != t;
                assert(w[k] == w0[k]);
                assert(s[j] == s.drop_last()[j]);
            } else {
                assert(w[k] == s[s.len() - 1]);
            }
        }
    }
}

/// Dropping a target's rows keeps the targets unique.
pub proof fn lemma_without_target_unique(s: Seq<SlateRowView>, t: Seq<char>)
    requires
        targets_unique(s),
    ensures
        targets_unique(without_target(s, t)),
    decreases s.len(),
{
    if s.len() > 0 {
        let d = s.drop_last();
        assert(targets_unique(d)) by {
            assert forall|i: int, j: int| 0 <= i < j < d.len() implies d[i].target != d[j].target by {
                assert(d[i] == s[i] && d[j] == s[j]);
            }
        }
        lemma_without_target_unique(d, t);
        lemma_without_target_rows(d, t);
        let w0 = without_target(d, t);
        if s.last().target != t {
            let w = w0.push(s.last());
            assert forall|i: int, j: int| 0 <= i < j < w.len() implies w[i].target != w[j].target by {
                if j == w.len() - 1 {
                    let m = choose|m: int| 0 <= m < d.len() && #[trigger] w0[i] == d[m] && d[m].target != t;
                    assert(d[m] == s[m]);
                    assert(w[i] == w0[i]);
                } else {
                    assert(w[i] == w0[i] && w[j] == w0[j]);
                }
            }
        }
    }
}

/// Observing keeps the slate's targets unique.
pub proof fn lemma_observed_unique(s: Seq<SlateRowView>, o: ObservationView)
    requires
        targets_unique(s),
    ensures
        targets_unique(observed(s, o)),
{
    lemma_without_target_unique(s, o.target);
    crate::laws::lemma_without_target(s, o.target);
    let w = without_target(s, o.target);
    lemma_holds_target(w, o.target);
    let n = observed(s, o);
    assert forall|i: int, j: int| 0 <= i < j < n.len() implies n[i].target != n[j].target by {
        if j == n.len() - 1 {
            assert(n[i] == w[i]);
        } else {
            assert(n[i] == w[i] && n[j] == w[j]);
        }
    }
}

/// The slate once `o` is observed with its payload stored under `h`: any row
/// with the same target leaves, and the new row comes last.
pub open spec fn observed(s: Seq<SlateRowView>, o: ObservationView) -> Seq<SlateRowView> {
    without_target(s, o.target).push(
        SlateRowView { target: o.target, artifact_hash: content_hash(o.payload), observed_at: o.observed_at },
    )
}

/// The bearing rows that sealing slate `s` into entry `id` adds, in slate order.
pub open spec fn sealed_rows(s: Seq<SlateRowView>, id: u64) -> Seq<BearingRowView> {
    s.map_values(
        |r: SlateRowView|
            BearingRowView {
                logbook_id: id,
                target: r.target,
                artifact_hash: r.artifact_hash,
                observed_at: r.observed_at,
            },
    )
}

/// The bearing rows of entry `id`, in insertion order.
pub open spec fn bearing_rows(b: Seq<BearingRowView>, id: u64) -> Seq<BearingRowView>
    decreases b.len(),
{
    if b.len() == 0 {
        b
    } else {
        let rest = bearing_rows(b.drop_last(), id);
        if b.last().logbook_id == id {
            rest.push(b.last())
        } else {
            rest
        }
    }
}

/// The identifier the next logbook entry receives.
pub open spec fn next_entry_id(log: Seq<LogbookRowView>) -> int {
    if log.len() == 0 {
        1
    } else {
        log.last().id + 1
    }
}

/// Logbook identifiers strictly ascend in insertion order.
pub open spec fn ids_ascending(log: Seq<LogbookRowView>) -> bool {
    forall|i: int, j: int| 0 <= i < j < log.len() ==> log[i].id < log[j].id
}

/// What loading the row `(target, hash, observed_at)` gives.
pub open spec fn loads_as(
    artifacts: Seq<ArtifactRowView>,
    target: Seq<char>,
    hash: Seq<char>,
    observed_at: Timestamp,
    o: ObservationView,
) -> bool {
    &&& o.target == target
    &&& o.observed_at == observed_at
    &&& load_spec(artifacts, hash) == Ok::<Seq<u8>, ArtifactFault>(o.payload)
}

/// Whether `e` is the error that loading the artifact under `hash` reports.
pub open spec fn load_error(artifacts: Seq<ArtifactRowView>, hash: Seq<char>, e: StorageError) -> bool {
    match (e, load_spec(artifacts, hash)) {
        (StorageError::ArtifactNotFound(k), Err(ArtifactFault::NotFound)) => k@ == hash,
        (StorageError::ArtifactCorrupt(k), Err(ArtifactFault::Corrupt)) => k@ == hash,
        _ => false,
    }
}

/// The observations that accompanied a logbook entry, and its summary.
#[derive(Clone, Debug, PartialEq, Eq)]
pub struct Bearing {
    pub observations: Vec<Observation>,
    pub summary: String,
}

/// A logbook entry as read back: the sealed row and its bearing.
#[derive(Clone, Debug, PartialEq, Eq)]
pub struct LogbookEntry {
    pub id: u64,
    pub recorded_at: Timestamp,
    pub identity: String,
    pub role: String,
    pub method: String,
    pub kind: EntryKind,
    pub bearing: Bearing,
}

/// `out` is what loading `rows` gives, one observation per row, in order.
pub open spec fn loaded_bearing(artifacts: Seq<ArtifactRowView>, rows: Seq<BearingRowView>, out: Seq<Observation>) -> bool {
    &&& out.len() == rows.len()
    &&& forall|k: int|
        0 <= k < rows.len() ==> loads_as(
            artifacts,
            rows[k].target,
            rows[k].artifact_hash,
            rows[k].observed_at,
            #[trigger] out[k]@,
        )
}

/// Some row of `rows` fails to load with the error `e`.
pub open spec fn bearing_fails(artifacts: Seq<ArtifactRowView>, rows: Seq<BearingRowView>, e: StorageError) -> bool {
    exists|k: int| 0 <= k < rows.len() && load_error(artifacts, #[trigger] rows[k].artifact_hash, e)
}

/// `entry` is what reading back logbook row `row` gives.
pub open spec fn read_back(
    artifacts: Seq<ArtifactRowView>,
    bearings: Seq<BearingRowView>,
    row: LogbookRowView,
    entry: LogbookEntry,
) -> bool {
    &&& entry.id == row.id
    &&& entry.recorded_at == row.recorded_at
    &&& entry.identity@ == row.identity
    &&& entry.role@ == row.role
    &&& entry.method@ == row.method
    &&& entry.kind@ == row.kind
    &&& entry.bearing.summary@ == row.summary
    &&& loaded_bearing(artifacts, bearing_rows(bearings, row.id), entry.bearing.observations@)
}

/// `after` is `before` with its slate sealed into the logbook row `entry`:
/// the row is appended under the next identifier, the slate rows follow it
/// as bearing rows in slate order, and the slate is empty.
pub open spec fn sealed(before: VoyageDb, after: VoyageDb, entry: LogbookRowView) -> bool {
    &&& entry.id == next_entry_id(before.logbook_view())
    &&& after.logbook_view() == before.logbook_view().push(entry)
    &&& after.bearings_view() == before.bearings_view() + sealed_rows(before.slate_view(), entry.id)
    &&& after.slate_view() == Seq::<SlateRowView>::empty()
    &&& after.voyage == before.voyage
    &&& after.artifacts == before.artifacts
}

/// The outcome of putting observation `o` on the slate of `before`: it
/// succeeds exactly where zstd makes a frame of the payload.
pub open spec fn appended(before: VoyageDb, after: VoyageDb, o: ObservationView, r: Result<(), StorageError>) -> bool {
    &&& (r is Ok) == (zstd_frame(o.payload, COMPRESSION_LEVEL) is Some)
    &&& after.voyage == before.voyage
    &&& after.logbook == before.logbook
    &&& after.bearings == before.bearings
    &&& match r {
        Ok(()) => {
            &&& stored(before.artifacts@, after.artifacts@, o.payload)
            &&& after.slate_view() == observed(before.slate_view(), o)
        },
        Err(e) => {
            &&& e is Compression
            &&& after.artifacts@ == before.artifacts@
            &&& after.slate == before.slate
        },
    }
    &&& before.wf() ==> after.wf()
}

/// The outcome of erasing target `t` from the slate of `before`.
pub open spec fn erased(before: VoyageDb, after: VoyageDb, t: Seq<char>, r: bool) -> bool {
    &&& r == holds_target(before.slate_view(), t)
    &&& after.slate_view() == without_target(before.slate_view(), t)
    &&& after.voyage == before.voyage
    &&& after.artifacts == before.artifacts
    &&& after.logbook == before.logbook
    &&& after.bearings == before.bearings
    &&& before.wf() ==> after.wf()
}

/// The outcome of clearing the slate of `before`.
pub open spec fn cleared(before: VoyageDb, after: VoyageDb) -> bool {
    &&& after.slate_view() == Seq::<SlateRowView>::empty()
    &&& after.voyage == before.voyage
    &&& after.artifacts == before.artifacts
    &&& after.logbook == before.logbook
    &&& after.bearings == before.bearings
    &&& before.wf() ==> after.wf()
}

/// The outcome of sealing the slate of `before` into an entry of `kind`;
/// the entry's time is the one its row records.
pub open spec fn recorded(
    before: VoyageDb,
    after: VoyageDb,
    kind: EntryKindView,
    summary: Seq<char>,
    identity: Seq<char>,
    role: Seq<char>,
    method: Seq<char>,
    r: Result<u64, StorageError>,
) -> bool {
    &&& (r is Ok) == (next_entry_id(before.logbook_view()) <= u64::MAX)
    &&& match r {
        Ok(id) => sealed(
            before,
            after,
            LogbookRowView {
                id,
                recorded_at: after.logbook_view().last().recorded_at,
                identity,
                kind,
                summary,
                role,
                method,
            },
        ),
        Err(e) => e is Database && after == before,
    }
    &&& before.wf() ==> after.wf()
}

/// What reading the slate of `db` gives: every row loaded, in order, or the
/// error of a row whose artifact fails to load.
pub open spec fn slate_loaded(db: VoyageDb, r: Result<Vec<Observation>, StorageError>) -> bool {
    match r {
        Ok(v) => {
            &&& v.len() == db.slate_view().len()
            &&& forall|i: int|
                0 <= i < v.len() ==> loads_as(
                    db.artifacts@,
                    db.slate_view()[i].target,
                    db.slate_view()[i].artifact_hash,
                    db.slate_view()[i].observed_at,
                    #[trigger] v@[i]@,
                )
        },
        Err(e) => exists|i: int|
            0 <= i < db.slate_view().len() && load_error(db.artifacts@, #[trigger] db.slate_view()[i].artifact_hash, e),
    }
}

/// What reading the logbook of `db` gives: every entry with its bearing, in
/// identifier order, or the error of a bearing row that fails to load.
pub open spec fn logbook_loaded(db: VoyageDb, r: Result<Vec<LogbookEntry>, StorageError>) -> bool {
    match r {
        Ok(v) => {
            &&& v.len() == db.logbook_view().len()
            &&& forall|i: int|
                0 <= i < v.len() ==> read_back(db.artifacts@, db.bearings_view(), db.logbook_view()[i], #[trigger] v@[i])
        },
        Err(e) => exists|i: int|
            0 <= i < db.logbook_view().len() && bearing_fails(
                db.artifacts@,
                bearing_rows(db.bearings_view(), #[trigger] db.logbook_view()[i].id),
                e,
            ),
    }
}

/// The database of one voyage.
#[derive(Clone, Debug)]
pub struct VoyageDb {
    pub voyage: Voyage,
    pub artifacts: ArtifactTable,
    pub slate: Vec<SlateRow>,
    pub logbook: Vec<LogbookRow>,
    pub bearings: Vec<BearingRow>,
}

impl VoyageDb {
    pub open spec fn slate_view(&self) -> Seq<SlateRowView> {
        self.slate@.map_values(|r: SlateRow| r@)
    }

    pub open spec fn logbook_view(&self) -> Seq<LogbookRowView> {
        self.logbook@.map_values(|r: LogbookRow| r@)
    }

    pub open spec fn bearings_view(&self) -> Seq<BearingRowView> {
        self.bearings@.map_values(|r: BearingRow| r@)
    }

    /// The relations between tables that every operation keeps: identifiers
    /// ascend from 1, and each bearing row refers to an existing entry.
    pub open spec fn wf(&self) -> bool {
        &&& targets_unique(self.slate_view())
        &&& ids_ascending(self.logbook_view())
        &&& forall|i: int| 0 <= i < self.logbook_view().len() ==> self.logbook_view()[i].id >= 1
        &&& forall|i: int|
            0 <= i < self.bearings_view().len() ==> 1 <= #[trigger] self.bearings_view()[i].logbook_id
                < next_entry_id(self.logbook_view())
    }

    /// A fresh database holding only the voyage row.
    pub fn new(voyage: Voyage) -> (r: VoyageDb)
        ensures
            r.voyage == voyage,
            r.artifacts@ == Seq::<ArtifactRowView>::empty(),
            r.slate_view() == Seq::<SlateRowView>::empty(),
            r.logbook_view() == Seq::<LogbookRowView>::empty(),
            r.bearings_view() == Seq::<BearingRowView>::empty(),
            r.wf(),
    {
        let r = VoyageDb {
            voyage,
            artifacts: ArtifactTable::new(),
            slate: Vec::new(),
            logbook: Vec::new(),
            bearings: Vec::new(),
        };
        assert(r.slate_view() =~= Seq::<SlateRowView>::empty());
        assert(r.logbook_view() =~= Seq::<LogbookRowView>::empty());
        assert(r.bearings_view() =~= Seq::<BearingRowView>::empty());
        r
    }

    /// Removes the row keyed by `target`; returns whether there was one.
    fn remove_target(&mut self, target: &String) -> (r: bool)
        ensures
            r == holds_target(old(self).slate_view(), target@),
            final(self).slate_view() == without_target(old(self).slate_view(), target@),
            final(self).voyage == old(self).voyage,
            final(self).artifacts == old(self).artifacts,
            final(self).logbook == old(self).logbook,
            final(self).bearings == old(self).bearings,
    {
        let ghost s = self.slate_view();
        let mut kept: Vec<SlateRow> = Vec::new();
        let mut found = false;
        let mut i: usize = 0;
        while i < self.slate.len()
            invariant
                i <= self.slate.len(),
                s == self.slate@.map_values(|r: SlateRow| r@),
                kept@.map_values(|r: SlateRow| r@) == without_target(s.take(i as int), target@),
                found == holds_target(s.take(i as int), target@),
            decreases self.slate.len() - i,
        {
            proof {
                assert(s.take(i as int + 1).drop_last() =~= s.take(i as int));
            }
            if self.slate[i].target != *target {
                let row = SlateRow {
                    target: self.slate[i].target.clone(),
                    artifact_hash: self.slate[i].artifact_hash.clone(),
                    observed_at: self.slate[i].observed_at,
                };
                let ghost before = kept@;
                kept.push(row);
                assert(kept@.map_values(|r: SlateRow| r@) =~= before.map_values(|r: SlateRow| r@).push(row@));
            } else {
                found = true;
            }
            i = i + 1;
        }
        assert(s.take(i as int) =~= s);
        self.slate = kept;
        found
    }

    /// Puts an observation on the slate, storing its payload as an artifact.
    ///
    /// A row with the same target is replaced: newest wins, and the new row
    /// comes last. The earlier payload's artifact stays stored.
    pub fn append_slate(&mut self, observation: &Observation) -> (r: Result<(), StorageError>)
        ensures
            appended(*old(self), *final(self), observation@, r),
    {
        let hash = match self.artifacts.store(&observation.payload) {
            Ok(h) => h,
            Err(e) => {
                proof {
                    if old(self).wf() {
                        lemma_wf_same_tables(*old(self), *self);
                    }
                }
                return Err(e);
            },
        };
        let ghost s0 = old(self).slate_view();
        self.remove_target(&observation.target);
        let row = SlateRow { target: observation.target.clone(), artifact_hash: hash, observed_at: observation.observed_at };
        let ghost before = self.slate@;
        self.slate.push(row);
        assert(self.slate_view() =~= before.map_values(|r: SlateRow| r@).push(row@));
        proof {
            if old(self).wf() {
                lemma_observed_unique(s0, observation@);
                lemma_wf_same_tables(*old(self), *self);
            }
        }
        Ok(())
    }

    /// Removes the slate row keyed by `target`.
    ///
    /// Returns whether a row was removed; absence is not an error.
    pub fn erase_slate(&mut self, target: &String) -> (r: bool)
        ensures
            erased(*old(self), *final(self), target@, r),
    {
        let ghost before = *self;
        proof {
            if targets_unique(self.slate_view()) {
                lemma_without_target_unique(self.slate_view(), target@);
            }
        }
        let r = self.remove_target(target);
        proof {
            if before.wf() {
                lemma_wf_same_tables(before, *self);
            }
        }
        r
    }

    /// Removes every slate row, without sealing.
    pub fn clear_slate(&mut self)
        ensures
            cleared(*old(self), *final(self)),
    {
        self.slate = Vec::new();
        assert(self.slate_view() =~= Seq::<SlateRowView>::empty());
        proof {
            if old(self).wf() {
                lemma_wf_same_tables(*old(self), *self);
            }
        }
    }

    /// Loads the observation `(target, hash, observed_at)`.
    fn load_observation(&self, target: &String, hash: &String, observed_at: Timestamp) -> (r: Result<Observation, StorageError>)
        ensures
            match r {
                Ok(o) => loads_as(self.artifacts@, target@, hash@, observed_at, o@),
                Err(e) => load_error(self.artifacts@, hash@, e),
            },
    {
        match self.artifacts.load(hash) {
            Ok(payload) => Ok(Observation { target: target.clone(), payload, observed_at }),
            Err(e) => Err(e),
        }
    }

    /// Reads the slate in insertion order, loading each payload.
    pub fn load_slate(&self) -> (r: Result<Vec<Observation>, StorageError>)
        ensures
            slate_loaded(*self, r),
    {
        let mut out: Vec<Observation> = Vec::new();
        let mut i: usize = 0;
        while i < self.slate.len()
            invariant
                i <= self.slate.len(),
                out.len() == i,
                forall|k: int|
                    0 <= k < i ==> loads_as(
                        self.artifacts@,
                        self.slate_view()[k].target,
                        self.slate_view()[k].artifact_hash,
                        self.slate_view()[k].observed_at,
                        #[trigger] out@[k]@,
                    ),
            decreases self.slate.len() - i,
        {
            let row = &self.slate[i];
            match self.load_observation(&row.target, &row.artifact_hash, row.observed_at) {
                Ok(o) => {
                    out.push(o);
                },
                Err(e) => {
                    assert(self.slate_view()[i as int] == self.slate@[i as int]@);
                    assert(load_error(self.artifacts@, self.slate_view()[i as int].artifact_hash, e));
                    return Err(e);
                },
            }
            i = i + 1;
        }
        Ok(out)
    }

    /// Loads the bearing observations of entry `id`, in insertion order.
    fn load_bearing(&self, id: u64) -> (r: Result<Vec<Observation>, StorageError>)
        ensures
            match r {
                Ok(v) => loaded_bearing(self.artifacts@, bearing_rows(self.bearings_view(), id), v@),
                Err(e) => bearing_fails(self.artifacts@, bearing_rows(self.bearings_view(), id), e),
            },
    {
        let ghost b = self.bearings_view();
        let mut out: Vec<Observation> = Vec::new();
        let mut j: usize = 0;
        while j < self.bearings.len()
            invariant
                j <= self.bearings.len(),
                b == self.bearings_view(),
                loaded_bearing(self.artifacts@, bearing_rows(b.take(j as int), id), out@),
            decreases self.bearings.len() - j,
        {
            proof {
                assert(b.take(j as int + 1).drop_last() =~= b.take(j as int));
            }
            let row = &self.bearings[j];
            if row.logbook_id == id {
                match self.load_observation(&row.target, &row.artifact_hash, row.observed_at) {
                    Ok(o) => {
                        out.push(o);
                    },
                    Err(e) => {
                        proof {
                            lemma_bearing_rows_prefix(b, j as int + 1, id);
                            let k = bearing_rows(b.take(j as int), id).len() as int;
                            assert(bearing_rows(b.take(j as int + 1), id) == bearing_rows(b.take(j as int), id).push(b[j as int]));
                            assert(bearing_rows(b, id)[k] == b[j as int]);
                            assert(b[j as int] == self.bearings@[j as int]@);
                            assert(load_error(self.artifacts@, bearing_rows(b, id)[k].artifact_hash, e));
                        }
                        return Err(e);
                    },
                }
            }
            j = j + 1;
        }
        assert(b.take(j as int) =~= b);
        Ok(out)
    }

    /// Reads the logbook in ascending identifier order, each entry with its
    /// bearing's observations in the order they were sealed.
    pub fn load_logbook(&self) -> (r: Result<Vec<LogbookEntry>, StorageError>)
        ensures
            logbook_loaded(*self, r),
    {
        let mut out: Vec<LogbookEntry> = Vec::new();
        let mut i: usize = 0;
        while i < self.logbook.len()
            invariant
                i <= self.logbook.len(),
                out.len() == i,
                forall|k: int|
                    0 <= k < i ==> read_back(
                        self.artifacts@,
                        self.bearings_view(),
                        self.logbook_view()[k],
                        #[trigger] out@[k],
                    ),
            decreases self.logbook.len() - i,
        {
            let row = &self.logbook[i];
            let observations = match self.load_bearing(row.id) {
                Ok(v) => v,
                Err(e) => {
                    assert(self.logbook_view()[i as int] == self.logbook@[i as int]@);
                    assert(bearing_fails(self.artifacts@, bearing_rows(self.bearings_view(), self.logbook_view()[i as int].id), e));
                    return Err(e);
                },
            };
            let entry = LogbookEntry {
                id: row.id,
                recorded_at: row.recorded_at,
                identity: row.identity.clone(),
                role: row.role.clone(),
                method: row.method.clone(),
                kind: row.kind.duplicate(),
                bearing: Bearing { observations, summary: row.summary.clone() },
            };
            out.push(entry);
            i = i + 1;
        }
        Ok(out)
    }

    /// Seals the slate into a new logbook entry recorded at `recorded_at`.
    ///
    /// One logbook row is appended; every slate row, in slate order, becomes
    /// a bearing row of it; the slate is emptied. It fails, changing nothing,
    /// only when the logbook's identifiers are exhausted.
    pub fn record_entry_at(
        &mut self,
        kind: EntryKind,
        summary: &str,
        identity: &str,
        role: &str,
        method: &str,
        recorded_at: Timestamp,
    ) -> (r: Result<u64, StorageError>)
        ensures
            final(self).voyage == old(self).voyage,
            final(self).artifacts == old(self).artifacts,
            (r is Ok) == (next_entry_id(old(self).logbook_view()) <= u64::MAX),
            match r {
                Ok(id) => sealed(
                    *old(self),
                    *final(self),
                    LogbookRowView {
                        id,
                        recorded_at,
                        identity: identity@,
                        kind: kind@,
                        summary: summary@,
                        role: role@,
                        method: method@,
                    },
                ),
                Err(e) => {
                    &&& e is Database
                    &&& final(self).slate == old(self).slate
                    &&& final(self).logbook == old(self).logbook
                    &&& final(self).bearings == old(self).bearings
                },
            },
            old(self).wf() ==> final(self).wf(),
    {
        let n = self.logbook.len();
        let id: u64 = if n == 0 {
            1
        } else {
            let last = self.logbook[n - 1].id;
            if last == u64::MAX {
                return Err(StorageError::Database(String::from_str("logbook identifiers are exhausted")));
            }
            last + 1
        };
        assert(id == next_entry_id(self.logbook_view()));
        let ghost s = self.slate_view();
        let ghost b0 = self.bearings_view();
        let ghost log0 = self.logbook_view();
        let ghost wf0 = self.wf();
        let mut i: usize = 0;
        while i < self.slate.len()
            invariant
                i <= self.slate.len(),
                s == self.slate@.map_values(|r: SlateRow| r@),
                self.bearings@.map_values(|r: BearingRow| r@) == b0 + sealed_rows(s.take(i as int), id),
                self.logbook == old(self).logbook,
                self.artifacts == old(self).artifacts,
                self.voyage == old(self).voyage,
                log0 == old(self).logbook_view(),
                wf0 == old(self).wf(),
                id == next_entry_id(log0),
            decreases self.slate.len() - i,
        {
            let row = BearingRow {
                logbook_id: id,
                target: self.slate[i].target.clone(),
                artifact_hash: self.slate[i].artifact_hash.clone(),
                observed_at: self.slate[i].observed_at,
            };
            let ghost before = self.bearings@;
            self.bearings.push(row);
            assert(self.bearings@.map_values(|r: BearingRow| r@) =~= before.map_values(|r: BearingRow| r@).push(row@));
            assert(sealed_rows(s.take(i as int + 1), id) =~= sealed_rows(s.take(i as int), id).push(row@));
            i = i + 1;
        }
        assert(s.take(i as int) =~= s);
        let entry = LogbookRow {
            id,
            recorded_at,
            identity: identity.to_owned(),
            kind,
            summary: summary.to_owned(),
            role: role.to_owned(),
            method: method.to_owned(),
        };
        let ghost before = self.logbook@;
        self.logbook.push(entry);
        assert(self.logbook_view() =~= before.map_values(|r: LogbookRow| r@).push(entry@));
        self.slate = Vec::new();
        assert(self.slate_view() =~= Seq::<SlateRowView>::empty());
        proof {
            if wf0 {
                let log = self.logbook_view();
                let bs = self.bearings_view();
                assert forall|a: int, c: int| 0 <= a < c < log.len() implies log[a].id < log[c].id by {
                    if c < log.len() - 1 {
                        assert(log[a] == log0[a] && log[c] == log0[c]);
                    } else if log0.len() > 0 {
                        assert(log[a] == log0[a]);
                        assert(log0[a].id <= log0.last().id) by {
                            if a < log0.len() - 1 {
                                assert(log0[a].id < log0[log0.len() - 1].id);
                            }
                        }
                    }
                }
                assert forall|k: int| 0 <= k < bs.len() implies 1 <= #[trigger] bs[k].logbook_id < next_entry_id(log) by {
                    if k < b0.len() {
                        assert(bs[k] == b0[k]);
                    } else {
                        assert(bs[k] == sealed_rows(s, id)[k - b0.len()]);
                    }
                }
            }
        }
        Ok(id)
    }
    /// Seals the slate into a steer entry recorded now.
    pub fn record_steer(&mut self, steer: &Steer, summary: &str, identity: &str, role: &str, method: &str) -> (r: Result<u64, StorageError>)
        ensures
            recorded(*old(self), *final(self), EntryKindView::Steer(steer@), summary@, identity@, role@, method@, r),
    {
        let t = now();
        self.record_entry_at(EntryKind::Steer(steer.duplicate()), summary, identity, role, method, t)
    }

    /// Seals the slate into a log entry with `status`, recorded now.
    pub fn record_log(&mut self, status: &str, summary: &str, identity: &str, role: &str, method: &str) -> (r: Result<u64, StorageError>)
        ensures
            recorded(*old(self), *final(self), EntryKindView::Log(status@), summary@, identity@, role@, method@, r),
    {
        let t = now();
        self.record_entry_at(EntryKind::Log(status.to_owned()), summary, identity, role, method, t)
    }

    /// Whether no two slate rows share a target.
    fn check_targets_unique(&self) -> (r: bool)
        ensures
            r == targets_unique(self.slate_view()),
    {
        let ghost s = self.slate_view();
        let n = self.slate.len();
        let mut i: usize = 0;
        while i < n
            invariant
                i <= n,
                n == s.len(),
                s == self.slate_view(),
                forall|a: int, b: int| 0 <= a < b < s.len() && a < i ==> s[a].target != s[b].target,
            decreases n - i,
        {
            let mut j: usize = i + 1;
            while j < n
                invariant
                    i < n,
                    i + 1 <= j <= n,
                    n == s.len(),
                    s == self.slate_view(),
                    forall|a: int, b: int| 0 <= a < b < s.len() && a < i ==> s[a].target != s[b].target,
                    forall|b: int| i < b < j ==> s[i as int].target != s[b].target,
                decreases n - j,
            {
                if self.slate[i].target == self.slate[j].target {
                    assert(s[i as int] == self.slate@[i as int]@ && s[j as int] == self.slate@[j as int]@);
                    return false;
                }
                j = j + 1;
            }
            i = i + 1;
        }
        true
    }

    /// Whether the logbook's identifiers ascend from 1.
    fn check_ids(&self) -> (r: bool)
        ensures
            r == (ids_ascending(self.logbook_view()) && forall|i: int|
                0 <= i < self.logbook_view().len() ==> self.logbook_view()[i].id >= 1),
    {
        let ghost l = self.logbook_view();
        let n = self.logbook.len();
        let mut i: usize = 0;
        while i < n
            invariant
                i <= n,
                n == l.len(),
                l == self.logbook_view(),
                ids_ascending(l.take(i as int)),
                forall|k: int| 0 <= k < i ==> l[k].id >= 1,
            decreases n - i,
        {
            let id = self.logbook[i].id;
            assert(l[i as int].id == id);
            if id < 1 {
                return false;
            }
            if i > 0 && self.logbook[i - 1].id >= id {
                assert(l[i - 1].id == self.logbook@[i - 1].id);
                assert(!(l[i - 1].id < l[i as int].id));
                return false;
            }
            proof {
                let t = l.take(i as int + 1);
                assert forall|a: int, c: int| 0 <= a < c < t.len() implies t[a].id < t[c].id by {
                    if c < i {
                        assert(l.take(i as int)[a] == t[a] && l.take(i as int)[c] == t[c]);
                    } else if a < i - 1 {
                        assert(l.take(i as int)[a] == t[a] && l.take(i as int)[i - 1] == t[i - 1]);
                    }
                }
            }
            i = i + 1;
        }
        assert(l.take(i as int) =~= l);
        true
    }

    /// Whether every bearing row refers to an entry below the next identifier.
    fn check_bearings(&self) -> (r: bool)
        ensures
            r == forall|i: int|
                0 <= i < self.bearings_view().len() ==> 1 <= #[trigger] self.bearings_view()[i].logbook_id
                    < next_entry_id(self.logbook_view()),
    {
        let n = self.logbook.len();
        let last: u64 = if n == 0 { 0 } else { self.logbook[n - 1].id };
        assert(next_entry_id(self.logbook_view()) == last + 1);
        let mut i: usize = 0;
        while i < self.bearings.len()
            invariant
                i <= self.bearings.len(),
                next_entry_id(self.logbook_view()) == last + 1,
                forall|k: int| 0 <= k < i ==> 1 <= #[trigger] self.bearings_view()[k].logbook_id <= last,
            decreases self.bearings.len() - i,
        {
            let id = self.bearings[i].logbook_id;
            assert(self.bearings_view()[i as int].logbook_id == id);
            if id < 1 || id > last {
                return false;
            }
            i = i + 1;
        }
        true
    }

    /// Whether the tables keep the relations of `wf`.
    pub fn check_wf(&self) -> (r: bool)
        ensures
            r == self.wf(),
    {
        self.check_targets_unique() && self.check_ids() && self.check_bearings()
    }

    /// A database from stored rows, refused where the rows break `wf`.
    pub fn from_rows(
        voyage: Voyage,
        artifacts: ArtifactTable,
        slate: Vec<SlateRow>,
        logbook: Vec<LogbookRow>,
        bearings: Vec<BearingRow>,
    ) -> (r: Result<VoyageDb, StorageError>)
        ensures
            match r {
                Ok(db) => {
                    &&& db == (VoyageDb { voyage, artifacts, slate, logbook, bearings })
                    &&& db.wf()
                },
                Err(e) => e is Database && !(VoyageDb { voyage, artifacts, slate, logbook, bearings }).wf(),
            },
    {
        let db = VoyageDb { voyage, artifacts, slate, logbook, bearings };
        if db.check_wf() {
            Ok(db)
        } else {
            Err(StorageError::Database(String::from_str("the voyage's tables are inconsistent")))
        }
    }
}

/// A database with the logbook and bearings of a well-formed one, and a
/// slate whose targets are unique, is well formed.
pub proof fn lemma_wf_same_tables(before: VoyageDb, after: VoyageDb)
    requires
        before.wf(),
        after.logbook == before.logbook,
        after.bearings == before.bearings,
        targets_unique(after.slate_view()),
    ensures
        after.wf(),
{
    assert(after.logbook_view() == before.logbook_view());
    assert(after.bearings_view() == before.bearings_view());
}

/// A seal of a well-formed database leaves it well formed.
pub proof fn lemma_sealed_wf(before: VoyageDb, after: VoyageDb, entry: LogbookRowView)
    requires
        before.wf(),
        sealed(before, after, entry),
    ensures
        after.wf(),
{
    let log0 = before.logbook_view();
    let log = after.logbook_view();
    let b0 = before.bearings_view();
    let bs = after.bearings_view();
    let id = entry.id;
    assert forall|a: int, c: int| 0 <= a < c < log.len() implies log[a].id < log[c].id by {
        assert(log[a] == log0[a]);
        if c < log.len() - 1 {
            assert(log[c] == log0[c]);
        } else if a < log0.len() - 1 {
            assert(log0[a].id < log0[log0.len() - 1].id);
        }
    }
    assert forall|k: int| 0 <= k < log.len() implies log[k].id >= 1 by {
        if k < log0.len() {
            assert(log[k] == log0[k]);
        }
    }
    assert forall|k: int| 0 <= k < bs.len() implies 1 <= #[trigger] bs[k].logbook_id < next_entry_id(log) by {
        if k < b0.len() {
            assert(bs[k] == b0[k]);
        } else {
            assert(bs[k] == sealed_rows(before.slate_view(), id)[k - b0.len()]);
        }
    }
}

/// A match in a prefix keeps its place among the matches of the whole.
pub proof fn lemma_bearing_rows_prefix(b: Seq<BearingRowView>, n: int, id: u64)
    requires
        0 <= n <= b.len(),
    ensures
        bearing_rows(b.take(n), id).len() <= bearing_rows(b, id).len(),
        forall|k: int|
            0 <= k < bearing_rows(b.take(n), id).len() ==> #[trigger] bearing_rows(b, id)[k]
                == bearing_rows(b.take(n), id)[k],
    decreases b.len() - n,
{
    if n < b.len() {
        assert(b.take(n + 1).drop_last() =~= b.take(n));
        lemma_bearing_rows_prefix(b, n + 1, id);
    } else {
        assert(b.take(n) =~= b);
    }
}

} // verus!
