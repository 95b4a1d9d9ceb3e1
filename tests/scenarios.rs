use helm::artifacts::{ArtifactRow, ArtifactStatus, ArtifactTable};
use helm::codec::content_hash_of;
use helm::error::StorageError;
use helm::ledger::{Observation, VoyageDb};
use helm::model::{CommentTarget, EntryKind, Steer, Timestamp, Voyage, VoyageStatus};
use helm::storage::Storage;

const PAYLOAD_A: &str = r#"{"kind":"gitHubIssue","summary":null,"comments":[]}"#;
const PAYLOAD_B: &str = r#"{"kind":"gitHubIssue","summary":null,"comments":[{"author":"a","body":"b","createdAt":"c"}]}"#;

fn voyage(intent: &str, at: i128) -> Voyage {
    Voyage {
        id: uuid::Uuid::new_v4().as_u128(),
        intent: intent.into(),
        created_at: Timestamp::from_nanos(at),
        status: VoyageStatus::Active,
    }
}

fn issue(number: u64) -> String {
    format!(r#"{{"kind":"gitHubIssue","number":{number}}}"#)
}

fn obs(target: &str, payload: &str, at: i128) -> Observation {
    Observation { target: target.to_string(), payload: payload.as_bytes().to_vec(), observed_at: Timestamp::from_nanos(at) }
}

fn setup() -> (Storage, Voyage) {
    let mut storage = Storage::new();
    let v = voyage("Fix crash", 10);
    storage.create_voyage(&v).unwrap();
    (storage, v)
}

#[test]
fn scenario_create_observe_log() {
    let (mut storage, v) = setup();
    let target = r#"{"kind":"directoryTree","root":"src/","skip":[],"maxDepth":null}"#;
    storage.append_slate(v.id, &obs(target, r#"{"kind":"directoryTree","listings":[]}"#, 20)).unwrap();
    storage.record_log(v.id, "halfway", "refactoring", "alice", "coder", "human").unwrap();

    assert!(storage.load_slate(v.id).unwrap().is_empty());
    let entries = storage.load_logbook(v.id).unwrap();
    assert_eq!(entries.len(), 1);
    assert_eq!(entries[0].kind, EntryKind::Log("halfway".to_string()));
    assert_eq!(entries[0].identity, "alice");
    assert_eq!(entries[0].bearing.summary, "refactoring");
    assert_eq!(entries[0].bearing.observations.len(), 1);
    assert_eq!(entries[0].bearing.observations[0].target, target);
}

#[test]
fn scenario_replace_on_observe() {
    let (mut storage, v) = setup();
    storage.append_slate(v.id, &obs(&issue(42), PAYLOAD_A, 1)).unwrap();
    storage.append_slate(v.id, &obs(&issue(42), PAYLOAD_B, 2)).unwrap();

    let slate = storage.load_slate(v.id).unwrap();
    assert_eq!(slate.len(), 1);
    assert_eq!(slate[0].target, issue(42));
    assert_eq!(slate[0].payload, PAYLOAD_B.as_bytes());
    assert_eq!(slate[0].observed_at, Timestamp::from_nanos(2));

    let rows = &storage.voyages[0].artifacts.rows;
    assert_eq!(rows.len(), 2);
    assert_eq!(rows[0].hash, content_hash_of(&PAYLOAD_A.as_bytes().to_vec()));
    assert_eq!(rows[1].hash, content_hash_of(&PAYLOAD_B.as_bytes().to_vec()));
}

#[test]
fn scenario_erase_then_seal() {
    let (mut storage, v) = setup();
    for n in 1..=3u64 {
        storage.append_slate(v.id, &obs(&issue(n), PAYLOAD_A, n as i128)).unwrap();
    }
    assert!(storage.erase_slate(v.id, &issue(2)).unwrap());
    let steer = Steer::Comment { number: 1, body: "plan".into(), target: CommentTarget::Issue };
    storage.record_steer(v.id, &steer, "summary", "alice", "coder", "human").unwrap();

    let bearings = &storage.voyages[0].bearings;
    let targets: Vec<&str> = bearings.iter().map(|b| b.target.as_str()).collect();
    assert_eq!(targets, vec![issue(1).as_str(), issue(3).as_str()]);
    assert!(bearings.iter().all(|b| b.logbook_id == 1));
    assert!(storage.load_slate(v.id).unwrap().is_empty());
}

#[test]
fn scenario_empty_seal() {
    let (mut storage, v) = setup();
    storage.record_log(v.id, "waiting", "nothing to report", "alice", "coder", "human").unwrap();
    let entries = storage.load_logbook(v.id).unwrap();
    assert_eq!(entries.len(), 1);
    assert!(entries[0].bearing.observations.is_empty());
}

#[test]
fn scenario_deduplication() {
    let (mut storage, v) = setup();
    storage.append_slate(v.id, &obs(&issue(1), PAYLOAD_A, 1)).unwrap();
    storage.append_slate(v.id, &obs(&issue(2), PAYLOAD_A, 2)).unwrap();
    let db = &storage.voyages[0];
    assert_eq!(db.artifacts.rows.len(), 1);
    assert_eq!(db.slate.len(), 2);
    assert_eq!(db.slate[0].artifact_hash, db.slate[1].artifact_hash);
}

#[test]
fn scenario_end_is_terminal() {
    let (mut storage, v) = setup();
    storage.end_voyage(v.id, Some("shipped".to_string())).unwrap();
    let loaded = storage.load_voyage(v.id).unwrap();
    match loaded.status {
        VoyageStatus::Ended { ended_at, status } => {
            assert!(ended_at.nanos >= v.created_at.nanos);
            assert_eq!(status.as_deref(), Some("shipped"));
        }
        VoyageStatus::Active => panic!("expected an ended voyage"),
    }
    assert_eq!(storage.end_voyage(v.id, None).unwrap_err(), StorageError::VoyageAlreadyEnded(v.id));
}

#[test]
fn storing_twice_keeps_one_row_and_one_hash() {
    let mut table = ArtifactTable::new();
    let json = PAYLOAD_A.as_bytes().to_vec();
    let h1 = table.store(&json).unwrap();
    let h2 = table.store(&json).unwrap();
    assert_eq!(h1, h2);
    assert_eq!(table.rows.len(), 1);
    assert_eq!(table.rows[0].status, ArtifactStatus::Stowed);
}

#[test]
fn store_then_load_round_trips() {
    let mut table = ArtifactTable::new();
    let json = PAYLOAD_B.as_bytes().to_vec();
    let h = table.store(&json).unwrap();
    assert_eq!(table.load(&h).unwrap(), json);
}

#[test]
fn content_hash_is_hex_sha256_of_the_json() {
    let h = content_hash_of(&b"abc".to_vec());
    assert_eq!(h, "ba7816bf8f01cfea414140de5dae2223b00361a396177a9cb410ff61f20015ad");
    assert_eq!(content_hash_of(&Vec::new()), "e3b0c44298fc1c149afbf4c8996fb92427ae41e4649b934ca495991b7852b855");
}

#[test]
fn stored_bytes_are_compressed_not_the_json() {
    let mut table = ArtifactTable::new();
    let json = PAYLOAD_A.as_bytes().to_vec();
    table.store(&json).unwrap();
    assert_ne!(table.rows[0].data, json);
    assert_eq!(&table.rows[0].data[..4], &[0x28, 0xB5, 0x2F, 0xFD]);
}

#[test]
fn missing_and_corrupt_artifacts_are_reported() {
    let mut table = ArtifactTable::new();
    let absent = "0".repeat(64);
    assert_eq!(table.load(&absent).unwrap_err(), StorageError::ArtifactNotFound(absent.clone()));
    table.rows.push(ArtifactRow { hash: absent.clone(), data: vec![1, 2, 3], status: ArtifactStatus::Stowed });
    assert_eq!(table.load(&absent).unwrap_err(), StorageError::ArtifactCorrupt(absent.clone()));
}

#[test]
fn slate_reports_an_artifact_that_fails_to_load() {
    let (mut storage, v) = setup();
    storage.append_slate(v.id, &obs(&issue(1), PAYLOAD_A, 1)).unwrap();
    storage.voyages[0].artifacts.rows[0].data = vec![9, 9];
    assert!(matches!(storage.load_slate(v.id).unwrap_err(), StorageError::ArtifactCorrupt(_)));
    assert!(matches!(storage.load_logbook(v.id), Ok(ref e) if e.is_empty()));
}

#[test]
fn erase_twice_changes_nothing_the_second_time() {
    let (mut storage, v) = setup();
    storage.append_slate(v.id, &obs(&issue(1), PAYLOAD_A, 1)).unwrap();
    storage.append_slate(v.id, &obs(&issue(2), PAYLOAD_B, 2)).unwrap();
    assert!(storage.erase_slate(v.id, &issue(1)).unwrap());
    let before = storage.load_slate(v.id).unwrap();
    assert!(!storage.erase_slate(v.id, &issue(1)).unwrap());
    assert_eq!(storage.load_slate(v.id).unwrap(), before);
}

#[test]
fn clear_twice_succeeds_and_stays_empty() {
    let (mut storage, v) = setup();
    storage.append_slate(v.id, &obs(&issue(1), PAYLOAD_A, 1)).unwrap();
    storage.clear_slate(v.id).unwrap();
    storage.clear_slate(v.id).unwrap();
    assert!(storage.load_slate(v.id).unwrap().is_empty());
}

#[test]
fn seal_moves_every_row_in_order() {
    let (mut storage, v) = setup();
    storage.record_log(v.id, "first", "s", "a", "r", "m").unwrap();
    for n in [5u64, 3, 9, 3] {
        storage.append_slate(v.id, &obs(&issue(n), PAYLOAD_A, n as i128)).unwrap();
    }
    storage.record_log(v.id, "second", "s", "a", "r", "m").unwrap();
    let entries = storage.load_logbook(v.id).unwrap();
    assert_eq!(entries.len(), 2);
    let targets: Vec<String> = entries[1].bearing.observations.iter().map(|o| o.target.clone()).collect();
    assert_eq!(targets, vec![issue(5), issue(9), issue(3)]);
    assert!(entries[0].bearing.observations.is_empty());
}

#[test]
fn logbook_ids_ascend_from_one() {
    let (mut storage, v) = setup();
    for s in ["a", "b", "c"] {
        storage.record_log(v.id, s, "s", "i", "r", "m").unwrap();
    }
    let ids: Vec<u64> = storage.load_logbook(v.id).unwrap().iter().map(|e| e.id).collect();
    assert_eq!(ids, vec![1, 2, 3]);
}

#[test]
fn exhausted_identifiers_fail_without_change() {
    let mut db = VoyageDb::new(voyage("x", 0));
    db.record_entry_at(EntryKind::Log("a".into()), "s", "i", "r", "m", Timestamp::from_nanos(1)).unwrap();
    db.logbook[0].id = u64::MAX;
    db.append_slate(&obs(&issue(1), PAYLOAD_A, 1)).unwrap();
    let err = db.record_entry_at(EntryKind::Log("b".into()), "s", "i", "r", "m", Timestamp::from_nanos(2));
    assert!(matches!(err, Err(StorageError::Database(_))));
    assert_eq!(db.logbook.len(), 1);
    assert_eq!(db.slate.len(), 1);
    assert!(db.bearings.is_empty());
}

#[test]
fn sealed_artifacts_survive_clear_and_erase() {
    let (mut storage, v) = setup();
    storage.append_slate(v.id, &obs(&issue(1), PAYLOAD_A, 1)).unwrap();
    storage.record_log(v.id, "x", "s", "i", "r", "m").unwrap();
    storage.append_slate(v.id, &obs(&issue(1), PAYLOAD_B, 2)).unwrap();
    storage.erase_slate(v.id, &issue(1)).unwrap();
    storage.clear_slate(v.id).unwrap();
    let entries = storage.load_logbook(v.id).unwrap();
    assert_eq!(entries[0].bearing.observations[0].payload, PAYLOAD_A.as_bytes());
}

#[test]
fn voyages_are_isolated() {
    let mut storage = Storage::new();
    let a = voyage("A", 1);
    let b = voyage("B", 2);
    storage.create_voyage(&a).unwrap();
    storage.create_voyage(&b).unwrap();
    storage.append_slate(b.id, &obs(&issue(7), PAYLOAD_B, 3)).unwrap();
    storage.append_slate(a.id, &obs(&issue(7), PAYLOAD_A, 4)).unwrap();
    storage.record_log(a.id, "x", "s", "i", "r", "m").unwrap();
    storage.end_voyage(a.id, None).unwrap();

    let slate_b = storage.load_slate(b.id).unwrap();
    assert_eq!(slate_b.len(), 1);
    assert_eq!(slate_b[0].payload, PAYLOAD_B.as_bytes());
    assert!(storage.load_logbook(b.id).unwrap().is_empty());
    assert_eq!(storage.load_voyage(b.id).unwrap().status, VoyageStatus::Active);
    assert_eq!(storage.voyages[1].artifacts.rows.len(), 1);
}

#[test]
fn created_voyage_loads_field_by_field() {
    let mut storage = Storage::new();
    let mut v = voyage("Round trip", 123_456_789);
    v.status = VoyageStatus::Ended { ended_at: Timestamp::from_nanos(123_456_790), status: None };
    storage.create_voyage(&v).unwrap();
    assert_eq!(storage.load_voyage(v.id).unwrap(), v);
}

#[test]
fn list_keeps_creation_ties_in_storage_order() {
    let mut storage = Storage::new();
    let v1 = voyage("one", 5);
    let v2 = voyage("two", 5);
    let v0 = voyage("zero", 1);
    storage.create_voyage(&v1).unwrap();
    storage.create_voyage(&v2).unwrap();
    storage.create_voyage(&v0).unwrap();
    let intents: Vec<String> = storage.list_voyages().into_iter().map(|v| v.intent).collect();
    assert_eq!(intents, vec!["zero", "one", "two"]);
}

#[test]
fn failed_compression_stores_nothing() {
    let mut table = ArtifactTable::new();
    let json = PAYLOAD_A.as_bytes().to_vec();
    assert!(matches!(table.store_compressed(&json, None), Err(StorageError::Compression(_))));
    assert!(table.rows.is_empty());
    let h = table.store_compressed(&json, Some(vec![0x28, 0xB5, 0x2F, 0xFD])).unwrap();
    assert_eq!(h, content_hash_of(&json));
    assert_eq!(table.rows.len(), 1);
}

#[test]
fn an_end_before_creation_is_recorded_at_creation() {
    let (mut storage, v) = setup();
    storage.end_voyage_at(v.id, None, Timestamp::from_nanos(3)).unwrap();
    let loaded = storage.load_voyage(v.id).unwrap();
    assert_eq!(loaded.status, VoyageStatus::Ended { ended_at: v.created_at, status: None });
    assert_eq!(
        storage.end_voyage_at(v.id, None, Timestamp::from_nanos(99)).unwrap_err(),
        StorageError::VoyageAlreadyEnded(v.id)
    );
}

#[test]
fn ending_an_unknown_voyage_is_not_found() {
    let mut storage = Storage::new();
    assert_eq!(storage.end_voyage(5, None).unwrap_err(), StorageError::VoyageNotFound(5));
}

#[test]
fn update_refuses_reopening_and_early_ends() {
    let (mut storage, v) = setup();
    let mut early = v.clone();
    early.status = VoyageStatus::Ended { ended_at: Timestamp::from_nanos(v.created_at.nanos - 1), status: None };
    assert_eq!(storage.update_voyage(&early).unwrap_err(), StorageError::EndBeforeCreation(v.id));
    assert_eq!(storage.load_voyage(v.id).unwrap().status, VoyageStatus::Active);

    let mut ended = v.clone();
    ended.status = VoyageStatus::Ended { ended_at: Timestamp::from_nanos(v.created_at.nanos), status: None };
    storage.update_voyage(&ended).unwrap();
    assert_eq!(storage.update_voyage(&v).unwrap_err(), StorageError::VoyageAlreadyEnded(v.id));
    assert_eq!(storage.load_voyage(v.id).unwrap(), ended);
    assert_eq!(storage.load_voyage(v.id).unwrap().ensure_active().unwrap_err(), StorageError::VoyageAlreadyEnded(v.id));
    assert!(v.ensure_active().is_ok());
}

fn rows_db(v: Voyage) -> VoyageDb {
    let mut db = VoyageDb::new(v);
    db.append_slate(&obs(&issue(1), PAYLOAD_A, 1)).unwrap();
    db.record_entry_at(EntryKind::Log("a".into()), "s", "i", "r", "m", Timestamp::from_nanos(2)).unwrap();
    db.append_slate(&obs(&issue(2), PAYLOAD_B, 3)).unwrap();
    db
}

#[test]
fn stored_rows_are_checked_before_use() {
    let good = rows_db(voyage("x", 0));
    assert!(good.check_wf());
    let VoyageDb { voyage: v, artifacts, slate, logbook, bearings } = good.clone();
    assert!(VoyageDb::from_rows(v, artifacts, slate, logbook, bearings).is_ok());

    let VoyageDb { voyage: v, artifacts, mut slate, logbook, bearings } = good.clone();
    slate.push(slate[0].clone());
    assert!(matches!(VoyageDb::from_rows(v, artifacts, slate, logbook, bearings), Err(StorageError::Database(_))));

    let VoyageDb { voyage: v, artifacts, slate, mut logbook, bearings } = good.clone();
    logbook.push(logbook[0].clone());
    assert!(matches!(VoyageDb::from_rows(v, artifacts, slate, logbook, bearings), Err(StorageError::Database(_))));

    let VoyageDb { voyage: v, artifacts, slate, logbook, mut bearings } = good.clone();
    bearings[0].logbook_id = 2;
    assert!(matches!(VoyageDb::from_rows(v, artifacts, slate, logbook, bearings), Err(StorageError::Database(_))));
}

#[test]
fn loaded_databases_keep_voyages_unique() {
    let v = voyage("x", 0);
    let mut storage = Storage::new();
    storage.add_loaded(rows_db(v.clone())).unwrap();
    assert_eq!(storage.add_loaded(VoyageDb::new(v.clone())).unwrap_err(), StorageError::VoyageAlreadyExists(v.id));
    let mut broken = VoyageDb::new(voyage("y", 0));
    broken.logbook = rows_db(voyage("z", 0)).logbook;
    broken.logbook[0].id = 0;
    assert!(matches!(storage.add_loaded(broken), Err(StorageError::Database(_))));
    assert_eq!(storage.voyages.len(), 1);
}
