use std::cell::RefCell;
use std::collections::HashSet;

use delve::amp_stream::JsonValue;
use delve::domain::{NodeId, SessionId};
use delve::storage::{
    load_session_payload, SessionCheckpoint, SessionEvent, SessionEventKind, SessionMigration,
    StorageError,
};
use delve::cli::IoFailureKind;
use delve::storage::{
    check_migration_result, check_schema_version, find_migration, generate_artifact_label,
    generate_intent_label, generate_label, generate_prompt_label, generate_unique_label,
    checkpoint_file_path, events_file_path, normalize_label_segment, schema_version_from_raw,
    session_file_path, session_folder_name, session_folder_path, session_lock_path, short_hash_token,
    LabelKind, SchemaAccess, SchemaRecord,
};

#[test]
fn label_generation_is_deterministic_and_prefixed() {
    let intent = generate_intent_label("Ship V1 with context");
    let prompt = generate_prompt_label("Continue the implementation");
    let artifact = generate_artifact_label("Add CLI tests");

    assert!(intent.starts_with("intent-"));
    assert!(prompt.starts_with("prompt-"));
    assert!(artifact.starts_with("artifact-"));

    assert_eq!(intent, generate_label(LabelKind::Intent, "Ship V1 with context"));
}

#[test]
fn collision_retry_uses_incrementing_attempts() {
    let mut existing = HashSet::new();
    let first = generate_label(LabelKind::Artifact, "same-content");
    existing.insert(first.clone());

    let generated = generate_unique_label(LabelKind::Artifact, "same-content", |candidate: &str| {
        existing.contains(candidate)
    })
    .expect("collision retry should generate a distinct label");

    assert_ne!(generated, first);
    assert!(generated.starts_with("artifact-"));
}

#[test]
fn label_text_has_slug_and_fnv_token() {
    assert_eq!(short_hash_token(""), "811c9dc5");
    assert_eq!(short_hash_token("a"), "e40c292c");
    assert_eq!(normalize_label_segment("  Hello, World!! ", 16), "hello-world");
    assert_eq!(normalize_label_segment("***", 16), "item");
    assert_eq!(normalize_label_segment("abcdefghijklmnopqrstuvwxyz", 16), "abcdefghijklmnop");
    assert_eq!(
        generate_label(LabelKind::Intent, "Ship V1"),
        format!("intent-ship-v1-{}", short_hash_token("intent:Ship V1:0"))
    );
    assert_eq!(session_folder_name("Intent Label 123"), "intent-label-123");
}

#[test]
fn unique_labels_fail_after_every_attempt_is_taken() {
    let calls = RefCell::new(0u32);
    let result = generate_unique_label(LabelKind::Prompt, "x", |_candidate: &str| {
        *calls.borrow_mut() += 1;
        true
    });
    let err = result.expect_err("every candidate is taken");
    assert_eq!(err.kind, IoFailureKind::AlreadyExists);
    assert_eq!(err.message, "unable to create unique label for 'prompt' after 256 attempts");
    assert_eq!(*calls.borrow(), 256);
}

#[test]
fn schema_versions_are_checked_by_access() {
    assert!(check_schema_version(1, SchemaRecord::Session, SchemaAccess::Write).is_ok());
    let write = check_schema_version(2, SchemaRecord::Session, SchemaAccess::Write).unwrap_err();
    assert_eq!(write.kind, IoFailureKind::InvalidInput);
    assert_eq!(write.message, "unsupported session schema version 2 for write; expected 1");
    let read = check_schema_version(0, SchemaRecord::Checkpoint, SchemaAccess::Read).unwrap_err();
    assert_eq!(read.kind, IoFailureKind::InvalidData);
    assert_eq!(read.message, "unsupported checkpoint schema version 0; expected 1");
    let append = check_schema_version(7, SchemaRecord::Event, SchemaAccess::Append).unwrap_err();
    assert_eq!(append.message, "unsupported event schema version 7 for append; expected 1");
}

#[test]
fn migrations_are_chosen_by_source_version_and_checked() {
    let migrations = vec![(0u32, 1u32), (0, 5), (3, 4)];
    assert_eq!(find_migration(&migrations, 0), Ok(0));
    assert_eq!(find_migration(&migrations, 3), Ok(2));
    let missing = find_migration(&migrations, 9).unwrap_err();
    assert_eq!(missing.message, "no migration found from schema version 9 to 1");
    assert!(check_migration_result(0, 1, 1).is_ok());
    let wrong = check_migration_result(0, 1, 2).unwrap_err();
    assert_eq!(wrong.message, "migration from 0 reported target 1 but produced 2");
    assert_eq!(schema_version_from_raw(Some(4)), Ok(4));
    assert_eq!(
        schema_version_from_raw(None).unwrap_err().message,
        "missing or invalid schema_version in session payload"
    );
    assert_eq!(
        schema_version_from_raw(Some(1u64 << 40)).unwrap_err().message,
        "schema_version 1099511627776 is too large"
    );
}

#[test]
fn session_folder_builder_is_deterministic() {
    let root = std::path::PathBuf::from("delve-storage-tests-folder");
    let path_a = session_folder_path(&root, "Intent Label 123");
    let path_b = session_folder_path(&root, "Intent Label 123");

    assert_eq!(path_a, path_b);
    assert_eq!(path_a, root.join("intent-label-123"));
}

#[test]
fn session_file_names_sit_in_the_session_folder() {
    let base = std::path::PathBuf::from("sessions/s1");
    assert_eq!(session_file_path(&base), base.join("session.json"));
    assert_eq!(events_file_path(&base), base.join("events.jsonl"));
    assert_eq!(session_lock_path(&base), base.join("session.lock"));
    assert_eq!(checkpoint_file_path(&base), base.join("checkpoint.json"));
}

struct SetVersion {
    from: u32,
    to: u32,
    writes: u64,
}

impl SessionMigration for SetVersion {
    fn source_version(&self) -> u32 {
        self.from
    }

    fn target_version(&self) -> u32 {
        self.to
    }

    fn migrate(
        &self,
        raw_session: JsonValue,
    ) -> Result<JsonValue, StorageError> {
            let mut entries = match raw_session {
            JsonValue::Object(entries) => entries,
            _ => Vec::new(),
        };
        entries.retain(|(k, _)| k != "schema_version");
        entries.push((
            String::from("schema_version"),
            JsonValue::Number(serde_json::Number::from(self.writes)),
        ));
        Ok(JsonValue::Object(entries))
    }
}

fn payload_version(v: &JsonValue) -> Option<u64> {
    match v {
        JsonValue::Object(entries) => entries.iter().find(|(k, _)| k == "schema_version").and_then(
            |(_, x)| match x {
                JsonValue::Number(n) => n.as_u64(),
                _ => None,
            },
        ),
        _ => None,
    }
}

#[test]
fn migration_hook_upgrades_old_payloads() {
    let none: Vec<&SetVersion> = Vec::new();

    let current = load_session_payload(r#"{"schema_version":1,"x":2}"#, &none).unwrap();
    assert_eq!(payload_version(&current), Some(1));

    let bad = load_session_payload("{not json", &none).unwrap_err();
    assert_eq!(bad.kind, IoFailureKind::InvalidData);

    let missing = load_session_payload(r#"{"x":1}"#, &none).unwrap_err();
    assert_eq!(missing.message, "missing or invalid schema_version in session payload");

    let unknown = load_session_payload(r#"{"schema_version":0}"#, &none).unwrap_err();
    assert_eq!(unknown.message, "no migration found from schema version 0 to 1");

    let step = SetVersion { from: 0, to: 1, writes: 1 };
    let steps = vec![&step];
    let upgraded = load_session_payload(r#"{"schema_version":0}"#, &steps).unwrap();
    assert_eq!(payload_version(&upgraded), Some(1));

    let liar = SetVersion { from: 0, to: 1, writes: 2 };
    let liars = vec![&liar];
    let err = load_session_payload(r#"{"schema_version":0}"#, &liars).unwrap_err();
    assert_eq!(err.message, "migration from 0 reported target 1 but produced 2");

    let back = SetVersion { from: 0, to: 2, writes: 2 };
    let forth = SetVersion { from: 2, to: 0, writes: 0 };
    let circle = vec![&back, &forth];
    let err = load_session_payload(r#"{"schema_version":0}"#, &circle).unwrap_err();
    assert_eq!(err.message, "migrations from schema version 0 do not reach 1");
}

#[test]
fn events_and_checkpoints_carry_the_current_schema_version() {
    let event = SessionEvent::new(
        SessionEventKind::PromptAdded,
        SessionId::from("s"),
        Some(NodeId::from("p")),
        JsonValue::Null,
        7,
    );
    assert_eq!(event.schema_version, 1);
    assert_eq!(event.timestamp_ms, 7);
    assert_eq!(event.node_id, Some(NodeId::from("p")));
    let checkpoint = SessionCheckpoint::new(
        SessionId::from("s"),
        NodeId::from("p"),
        2,
        Some(String::from("continue")),
        JsonValue::Null,
        9,
    );
    assert_eq!(checkpoint.schema_version, 1);
    assert_eq!(checkpoint.step, 2);
    assert_eq!(checkpoint.pending_prompt.as_deref(), Some("continue"));
}
