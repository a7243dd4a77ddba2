use revision::store::error::StoreError;
use revision::store::exec::{missing, stamp};
use revision::store::journal::{Entry, KIND_COMMAND, KIND_REDO, KIND_UNDO};
use revision::store::project::check_schema_version;
use revision::store::replay::{expect_target, replay_batch, Batch};
use revision::store::schema::{MODEL_TABLE, SCHEMA_VERSION};

fn entry(seq: i64, kind: &str, target: Option<i64>) -> Entry {
    Entry {
        seq,
        gesture: seq,
        kind: kind.to_string(),
        target_gesture: target,
    }
}

#[test]
fn a_command_replays_its_own_row() {
    let e = entry(12, KIND_COMMAND, None);
    assert_eq!(replay_batch(&e).unwrap(), Batch::Recorded { seq: 12 });
}

#[test]
fn markers_replay_their_targets_payloads() {
    assert_eq!(
        replay_batch(&entry(5, KIND_UNDO, Some(3))).unwrap(),
        Batch::Undo { gesture: 3 }
    );
    assert_eq!(
        replay_batch(&entry(6, KIND_REDO, Some(3))).unwrap(),
        Batch::Redo { gesture: 3 }
    );
}

#[test]
fn an_unknown_kind_replays_nothing() {
    assert_eq!(
        replay_batch(&entry(9, "snapshot", None)).unwrap(),
        Batch::Nothing
    );
}

#[test]
fn a_marker_without_a_target_is_not_found() {
    match replay_batch(&entry(41, KIND_UNDO, None)) {
        Err(StoreError::NotFound { kind, id }) => {
            assert_eq!(kind, "journal target_gesture");
            assert_eq!(id, 41);
        }
        other => panic!("expected NotFound, got {other:?}"),
    }
    assert!(matches!(
        expect_target(&entry(2, KIND_REDO, None)),
        Err(StoreError::NotFound { id: 2, .. })
    ));
    assert_eq!(expect_target(&entry(2, KIND_REDO, Some(8))).unwrap(), 8);
}

#[test]
fn opening_a_non_project_is_refused() {
    match check_schema_version("a/b.revision".to_string(), None) {
        Err(StoreError::NotAProject(path)) => assert_eq!(path, "a/b.revision"),
        other => panic!("expected NotAProject, got {other:?}"),
    }
    assert!(matches!(
        check_schema_version("p".to_string(), Some("one".to_string())),
        Err(StoreError::NotAProject(_))
    ));
}

#[test]
fn another_schema_version_is_refused() {
    match check_schema_version("p".to_string(), Some("2".to_string())) {
        Err(StoreError::SchemaVersion { found, expected }) => {
            assert_eq!(found, 2);
            assert_eq!(expected, SCHEMA_VERSION);
        }
        other => panic!("expected SchemaVersion, got {other:?}"),
    }
    assert!(check_schema_version("p".to_string(), Some("1".to_string())).is_ok());
    assert!(check_schema_version("p".to_string(), Some("+1".to_string())).is_ok());
}

#[test]
fn the_stamp_is_the_millisecond_count() {
    assert_eq!(stamp(Some(1_700_000_000_123)), 1_700_000_000_123);
    assert_eq!(stamp(None), 0);
    assert_eq!(stamp(Some(u128::from(u64::MAX) + 5)), 4);
}

#[test]
fn missing_names_the_row() {
    assert!(matches!(
        missing("tuning", 7),
        StoreError::NotFound { kind: "tuning", id: 7 }
    ));
}

#[test]
fn the_model_tables_start_with_meta() {
    assert_eq!(MODEL_TABLE.len(), 11);
    assert_eq!(MODEL_TABLE[0], "meta");
    assert!(!MODEL_TABLE.contains(&"journal"));
}
