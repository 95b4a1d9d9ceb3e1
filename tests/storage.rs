use helm::error::StorageError;
use helm::ledger::Observation;
use helm::model::{CommentTarget, EntryKind, Steer, Timestamp, Voyage, VoyageStatus};
use helm::storage::Storage;

const DIR_TARGET: &str = r#"{"kind":"directoryTree","root":"src/","skip":[],"maxDepth":null}"#;
const DIR_PAYLOAD: &str = r#"{"kind":"directoryTree","listings":[{"path":"src/","entries":[{"name":"main.rs","isDir":false,"sizeBytes":42}]}]}"#;
const EMPTY_TREE: &str = r#"{"kind":"directoryTree","listings":[]}"#;

fn new_id() -> u128 {
    uuid::Uuid::new_v4().as_u128()
}

fn sample_voyage() -> Voyage {
    Voyage {
        id: new_id(),
        intent: "Fix the widget".into(),
        created_at: Timestamp::from_nanos(1_700_000_000_000_000_000),
        status: VoyageStatus::Active,
    }
}

fn observation(target: &str, payload: &str, at: i128) -> Observation {
    Observation {
        target: target.to_string(),
        payload: payload.as_bytes().to_vec(),
        observed_at: Timestamp::from_nanos(at),
    }
}

fn sample_observation() -> Observation {
    observation(DIR_TARGET, DIR_PAYLOAD, 1)
}

fn issue_target(number: u64) -> String {
    format!(r#"{{"kind":"gitHubIssue","number":{number}}}"#)
}

fn issue_observation(number: u64) -> Observation {
    observation(&issue_target(number), EMPTY_TREE, 2)
}

fn with_voyage() -> (Storage, Voyage) {
    let mut storage = Storage::new();
    let voyage = sample_voyage();
    storage.create_voyage(&voyage).unwrap();
    (storage, voyage)
}

fn comment(number: u64, body: &str) -> Steer {
    Steer::Comment { number, body: body.into(), target: CommentTarget::Issue }
}

// ── Slate ──

#[test]
fn append_and_load_slate() {
    let (mut storage, voyage) = with_voyage();
    storage.append_slate(voyage.id, &sample_observation()).unwrap();
    storage.append_slate(voyage.id, &issue_observation(42)).unwrap();

    let loaded = storage.load_slate(voyage.id).unwrap();
    assert_eq!(loaded.len(), 2);
}

#[test]
fn append_slate_set_semantics_replaces_same_target() {
    let (mut storage, voyage) = with_voyage();
    storage.append_slate(voyage.id, &issue_observation(42)).unwrap();
    storage.append_slate(voyage.id, &issue_observation(42)).unwrap();

    let loaded = storage.load_slate(voyage.id).unwrap();
    assert_eq!(loaded.len(), 1, "set semantics: only one entry per target");
    assert_eq!(loaded[0].target, issue_target(42));
}

#[test]
fn load_slate_empty() {
    let (storage, voyage) = with_voyage();
    assert!(storage.load_slate(voyage.id).unwrap().is_empty());
}

#[test]
fn clear_slate_removes_all_entries() {
    let (mut storage, voyage) = with_voyage();
    storage.append_slate(voyage.id, &sample_observation()).unwrap();
    storage.clear_slate(voyage.id).unwrap();
    assert!(storage.load_slate(voyage.id).unwrap().is_empty());
}

#[test]
fn clear_slate_idempotent() {
    let (mut storage, voyage) = with_voyage();
    storage.clear_slate(voyage.id).unwrap();
}

#[test]
fn erase_slate_removes_target() {
    let (mut storage, voyage) = with_voyage();
    storage.append_slate(voyage.id, &sample_observation()).unwrap();
    storage.append_slate(voyage.id, &issue_observation(42)).unwrap();

    let erased = storage.erase_slate(voyage.id, &issue_target(42)).unwrap();

    assert!(erased);
    let loaded = storage.load_slate(voyage.id).unwrap();
    assert_eq!(loaded.len(), 1);
    assert_eq!(loaded[0].target, DIR_TARGET);
}

#[test]
fn erase_slate_returns_false_when_target_not_present() {
    let (mut storage, voyage) = with_voyage();
    assert!(!storage.erase_slate(voyage.id, &issue_target(99)).unwrap());
}

#[test]
fn erase_slate_idempotent() {
    let (mut storage, voyage) = with_voyage();
    storage.append_slate(voyage.id, &issue_observation(42)).unwrap();
    storage.erase_slate(voyage.id, &issue_target(42)).unwrap();
    let erased = storage.erase_slate(voyage.id, &issue_target(42)).unwrap();
    assert!(!erased);
}

#[test]
fn append_slate_nonexistent_voyage_fails() {
    let mut storage = Storage::new();
    let id = new_id();
    let err = storage.append_slate(id, &sample_observation()).unwrap_err();
    assert_eq!(err, StorageError::VoyageNotFound(id));
}

#[test]
fn load_slate_nonexistent_voyage_fails() {
    let storage = Storage::new();
    let err = storage.load_slate(new_id()).unwrap_err();
    assert!(matches!(err, StorageError::VoyageNotFound(_)));
}

#[test]
fn clear_slate_nonexistent_voyage_fails() {
    let mut storage = Storage::new();
    let err = storage.clear_slate(new_id()).unwrap_err();
    assert!(matches!(err, StorageError::VoyageNotFound(_)));
}

// ── Logbook ──

#[test]
fn record_steer_seals_and_clears_slate() {
    let (mut storage, voyage) = with_voyage();
    storage.append_slate(voyage.id, &sample_observation()).unwrap();
    storage
        .record_steer(voyage.id, &comment(42, "Here's my plan."), "Ready to steer", "alice", "coder", "human")
        .unwrap();
    assert!(storage.load_slate(voyage.id).unwrap().is_empty());
}

#[test]
fn record_log_seals_and_clears_slate() {
    let (mut storage, voyage) = with_voyage();
    storage.append_slate(voyage.id, &sample_observation()).unwrap();
    storage
        .record_log(voyage.id, "Waiting for review.", "All looks good", "alice", "auditor", "human")
        .unwrap();
    assert!(storage.load_slate(voyage.id).unwrap().is_empty());
}

#[test]
fn record_steer_on_empty_slate() {
    let (mut storage, voyage) = with_voyage();
    storage
        .record_steer(voyage.id, &comment(1, "Empty slate steer."), "summary", "alice", "coder", "human")
        .unwrap();
}

#[test]
fn load_logbook_after_record() {
    let (mut storage, voyage) = with_voyage();
    storage.append_slate(voyage.id, &sample_observation()).unwrap();
    storage
        .record_steer(voyage.id, &comment(42, "Comment body."), "Steering now", "alice", "coder", "agent")
        .unwrap();
    storage.record_log(voyage.id, "Waiting.", "Logged state", "bob", "auditor", "human").unwrap();

    let entries = storage.load_logbook(voyage.id).unwrap();
    assert_eq!(entries.len(), 2);

    assert!(matches!(entries[0].kind, EntryKind::Steer(_)));
    assert_eq!(entries[0].identity, "alice");
    assert_eq!(entries[0].role, "coder");
    assert_eq!(entries[0].method, "agent");
    assert_eq!(entries[0].bearing.summary, "Steering now");
    assert_eq!(entries[0].bearing.observations.len(), 1);

    assert!(matches!(entries[1].kind, EntryKind::Log(_)));
    assert_eq!(entries[1].identity, "bob");
    assert_eq!(entries[1].bearing.observations.len(), 0);
}

#[test]
fn record_steer_nonexistent_voyage_fails() {
    let mut storage = Storage::new();
    let err = storage.record_steer(new_id(), &comment(1, "Body."), "s", "i", "r", "m").unwrap_err();
    assert!(matches!(err, StorageError::VoyageNotFound(_)));
}

#[test]
fn load_logbook_empty() {
    let (storage, voyage) = with_voyage();
    assert!(storage.load_logbook(voyage.id).unwrap().is_empty());
}

#[test]
fn load_logbook_nonexistent_voyage_fails() {
    let storage = Storage::new();
    let err = storage.load_logbook(new_id()).unwrap_err();
    assert!(matches!(err, StorageError::VoyageNotFound(_)));
}

// ── Voyages ──

fn check_create_and_load() {
    let (storage, voyage) = with_voyage();
    let loaded = storage.load_voyage(voyage.id).unwrap();
    assert_eq!(loaded.id, voyage.id);
    assert_eq!(loaded.intent, voyage.intent);
}

fn check_create_duplicate() {
    let (mut storage, voyage) = with_voyage();
    let err = storage.create_voyage(&voyage).unwrap_err();
    assert!(matches!(err, StorageError::VoyageAlreadyExists(_)));
}

fn check_load_nonexistent() {
    let storage = Storage::new();
    let err = storage.load_voyage(new_id()).unwrap_err();
    assert!(matches!(err, StorageError::VoyageNotFound(_)));
}

fn check_update_status() {
    let (mut storage, mut voyage) = with_voyage();
    voyage.status = VoyageStatus::Ended {
        ended_at: Timestamp::from_nanos(1_800_000_000_000_000_000),
        status: Some("Done.".into()),
    };
    storage.update_voyage(&voyage).unwrap();
    let loaded = storage.load_voyage(voyage.id).unwrap();
    assert!(matches!(loaded.status, VoyageStatus::Ended { .. }));
}

fn check_update_nonexistent() {
    let mut storage = Storage::new();
    let err = storage.update_voyage(&sample_voyage()).unwrap_err();
    assert!(matches!(err, StorageError::VoyageNotFound(_)));
}

fn check_list_empty() {
    assert!(Storage::new().list_voyages().is_empty());
}

fn check_list_sorted() {
    let mut storage = Storage::new();
    let mut v1 = sample_voyage();
    v1.intent = "First".into();
    v1.created_at = Timestamp::from_nanos(1_000_000_000 * 1_000_000_000);
    let mut v2 = sample_voyage();
    v2.intent = "Second".into();
    v2.created_at = Timestamp::from_nanos(2_000_000_000 * 1_000_000_000);

    storage.create_voyage(&v2).unwrap();
    storage.create_voyage(&v1).unwrap();

    let voyages = storage.list_voyages();
    assert_eq!(voyages.len(), 2);
    assert_eq!(voyages[0].intent, "First");
    assert_eq!(voyages[1].intent, "Second");
}

#[test]
fn voyage_create_and_load_voyage() {
    check_create_and_load();
}

#[test]
fn voyage_create_duplicate_voyage_fails() {
    check_create_duplicate();
}

#[test]
fn voyage_load_nonexistent_voyage_fails() {
    check_load_nonexistent();
}

#[test]
fn voyage_update_voyage_status() {
    check_update_status();
}

#[test]
fn voyage_update_nonexistent_voyage_fails() {
    check_update_nonexistent();
}

#[test]
fn voyage_list_voyages_empty() {
    check_list_empty();
}

#[test]
fn voyage_list_voyages_returns_all_sorted_by_created_at() {
    check_list_sorted();
}

#[test]
fn storage_create_and_load_voyage() {
    check_create_and_load();
}

#[test]
fn storage_create_duplicate_voyage_fails() {
    check_create_duplicate();
}

#[test]
fn storage_load_nonexistent_voyage_fails() {
    check_load_nonexistent();
}

#[test]
fn storage_update_voyage_status() {
    check_update_status();
}

#[test]
fn storage_update_nonexistent_voyage_fails() {
    check_update_nonexistent();
}

#[test]
fn storage_list_voyages_empty() {
    check_list_empty();
}

#[test]
fn storage_list_voyages_returns_all_sorted_by_created_at() {
    check_list_sorted();
}
