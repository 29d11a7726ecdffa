use session_catalog::error::SessionError;
use session_catalog::model::{Message, Role, SessionMetadata, UpdateSessionTitleRequest};
use session_catalog::resolve::resolve;
use session_catalog::store::{get_session_history, update_session_title, Catalog};

fn msg(text: &str, created: i64) -> Message {
    Message { role: Role::User, content: text.to_string(), created }
}

fn create_test_session(catalog: &mut Catalog, session_id: &str) {
    let loc = resolve(session_id).expect("valid id");
    let messages = vec![msg("Test message", 1_700_000_000)];
    catalog
        .append_messages(&loc, messages, "2024-01-07 10:00:00 UTC".to_string())
        .expect("append");
}

#[test]
fn test_resolve_rejects_unsafe_ids() {
    assert_eq!(resolve("").unwrap_err(), SessionError::InvalidIdentifier);
    assert_eq!(resolve("a/b").unwrap_err(), SessionError::InvalidIdentifier);
    assert_eq!(resolve("a\\b").unwrap_err(), SessionError::InvalidIdentifier);
    assert_eq!(resolve("..").unwrap_err(), SessionError::InvalidIdentifier);
    assert_eq!(resolve("a..b").unwrap_err(), SessionError::InvalidIdentifier);
    let loc = resolve("session-1.log").unwrap();
    assert_eq!(loc.name, "session-1.log");
}

#[test]
fn test_resolve_deterministic_and_injective() {
    let a1 = resolve("alpha").unwrap();
    let a2 = resolve("alpha").unwrap();
    assert_eq!(a1.name, a2.name);
    let b = resolve("beta").unwrap();
    assert_ne!(a1.name, b.name);
}

#[test]
fn test_read_metadata_defaults_when_missing() {
    let catalog = Catalog::new();
    let loc = resolve("never-written").unwrap();
    let m = catalog.read_metadata(&loc).unwrap();
    assert_eq!(m.description, "");
    assert_eq!(m.message_count, 0);
    assert_eq!(m.total_tokens, None);
    assert_eq!(m.accumulated_total_tokens, None);
    assert_eq!(m.is_title_customized, false);
}

#[test]
fn test_metadata_roundtrip_reproduces_every_field() {
    let mut catalog = Catalog::new();
    let loc = resolve("roundtrip").unwrap();
    create_test_session(&mut catalog, "roundtrip");

    let mut m = SessionMetadata::default();
    m.description = "".to_string();
    m.message_count = 7;
    m.total_tokens = None;
    m.input_tokens = Some(11);
    m.output_tokens = Some(22);
    m.accumulated_total_tokens = None;
    m.accumulated_input_tokens = Some(33);
    m.accumulated_output_tokens = Some(44);
    m.working_dir = "/tmp/w".to_string();
    m.schedule_id = Some("sched".to_string());
    m.project_id = None;
    m.is_title_customized = true;
    catalog.update_metadata(&loc, m).unwrap();

    let back = catalog.read_metadata(&loc).unwrap();
    assert_eq!(back.description, "");
    assert_eq!(back.message_count, 7);
    assert_eq!(back.total_tokens, None);
    assert_eq!(back.input_tokens, Some(11));
    assert_eq!(back.output_tokens, Some(22));
    assert_eq!(back.accumulated_total_tokens, None);
    assert_eq!(back.accumulated_input_tokens, Some(33));
    assert_eq!(back.accumulated_output_tokens, Some(44));
    assert_eq!(back.working_dir, "/tmp/w");
    assert_eq!(back.schedule_id, Some("sched".to_string()));
    assert_eq!(back.project_id, None);
    assert_eq!(back.is_title_customized, true);
}

#[test]
fn test_update_isolated_to_one_location() {
    let mut catalog = Catalog::new();
    create_test_session(&mut catalog, "first");
    create_test_session(&mut catalog, "second");
    let first = resolve("first").unwrap();
    let second = resolve("second").unwrap();

    let mut m = catalog.read_metadata(&first).unwrap();
    m.description = "changed".to_string();
    catalog.update_metadata(&first, m).unwrap();

    let other = catalog.read_metadata(&second).unwrap();
    assert_eq!(other.description, "");
    let mine = catalog.read_metadata(&first).unwrap();
    assert_eq!(mine.description, "changed");
}

#[test]
fn test_update_metadata_nonexistent_fails_not_found() {
    let mut catalog = Catalog::new();
    let loc = resolve("ghost").unwrap();
    let m = SessionMetadata::default();
    assert_eq!(catalog.update_metadata(&loc, m).unwrap_err(), SessionError::NotFound);
    assert_eq!(catalog.entries.len(), 0);
}

#[test]
fn test_update_session_title_success() {
    let mut catalog = Catalog::new();
    let session_id = "test-session-123";
    create_test_session(&mut catalog, session_id);

    let req = UpdateSessionTitleRequest { title: "My Custom Session Title".to_string() };
    update_session_title(&mut catalog, session_id, req).unwrap();

    let loc = resolve(session_id).unwrap();
    let metadata = catalog.read_metadata(&loc).unwrap();
    assert_eq!(metadata.description, "My Custom Session Title");
    assert_eq!(metadata.is_title_customized, true);
}

#[test]
fn test_update_session_title_not_found() {
    let mut catalog = Catalog::new();
    let req = UpdateSessionTitleRequest { title: "Should Fail".to_string() };
    let r = update_session_title(&mut catalog, "nonexistent-session-1", req);
    assert_eq!(r.unwrap_err(), SessionError::NotFound);
}

#[test]
fn test_update_session_title_invalid_id() {
    let mut catalog = Catalog::new();
    let req = UpdateSessionTitleRequest { title: "Should Fail".to_string() };
    let r = update_session_title(&mut catalog, "../escape", req);
    assert_eq!(r.unwrap_err(), SessionError::InvalidIdentifier);
}

#[test]
fn test_update_session_title_preserves_existing_metadata() {
    let mut catalog = Catalog::new();
    let session_id = "test-session-preserve";
    create_test_session(&mut catalog, session_id);
    let loc = resolve(session_id).unwrap();

    let mut initial_metadata = catalog.read_metadata(&loc).unwrap();
    initial_metadata.message_count = 5;
    initial_metadata.total_tokens = Some(100);
    catalog.update_metadata(&loc, initial_metadata).unwrap();

    let req = UpdateSessionTitleRequest { title: "New Title".to_string() };
    update_session_title(&mut catalog, session_id, req).unwrap();

    let updated_metadata = catalog.read_metadata(&loc).unwrap();
    assert_eq!(updated_metadata.description, "New Title");
    assert_eq!(updated_metadata.is_title_customized, true);
    assert_eq!(updated_metadata.message_count, 5);
    assert_eq!(updated_metadata.total_tokens, Some(100));
}

#[test]
fn test_update_session_empty_description() {
    let mut catalog = Catalog::new();
    let session_id = "test_session_empty_desc";
    create_test_session(&mut catalog, session_id);
    let loc = resolve(session_id).unwrap();

    let mut m = catalog.read_metadata(&loc).unwrap();
    m.description = "Original description".to_string();
    catalog.update_metadata(&loc, m).unwrap();

    let req = UpdateSessionTitleRequest { title: "".to_string() };
    update_session_title(&mut catalog, session_id, req).unwrap();

    let back = catalog.read_metadata(&loc).unwrap();
    assert_eq!(back.description, "");
    assert_eq!(back.is_title_customized, true);
}

#[test]
fn test_update_session_long_description() {
    let mut catalog = Catalog::new();
    let session_id = "test_session_long_desc";
    create_test_session(&mut catalog, session_id);

    let long_description = "A".repeat(1000);
    let req = UpdateSessionTitleRequest { title: long_description.clone() };
    update_session_title(&mut catalog, session_id, req).unwrap();

    let loc = resolve(session_id).unwrap();
    let back = catalog.read_metadata(&loc).unwrap();
    assert_eq!(back.description, long_description);
    assert_eq!(back.description.len(), 1000);
}

#[test]
fn test_update_session_success() {
    let mut catalog = Catalog::new();
    let session_id = "test_session_update";
    create_test_session(&mut catalog, session_id);
    let loc = resolve(session_id).unwrap();

    let mut m = catalog.read_metadata(&loc).unwrap();
    m.description = "Original description".to_string();
    catalog.update_metadata(&loc, m).unwrap();

    let mut m = catalog.read_metadata(&loc).unwrap();
    m.description = "Updated description".to_string();
    catalog.update_metadata(&loc, m).unwrap();

    let back = catalog.read_metadata(&loc).unwrap();
    assert_eq!(back.description, "Updated description");
}

#[test]
fn test_update_session_not_found() {
    let mut catalog = Catalog::new();
    let loc = resolve("non_existent_session").unwrap();
    let mut m = SessionMetadata::default();
    m.description = "This should fail".to_string();
    assert_eq!(catalog.update_metadata(&loc, m).unwrap_err(), SessionError::NotFound);
}

#[test]
fn test_update_session_preserves_other_metadata() {
    let mut catalog = Catalog::new();
    let session_id = "test_session_preserve_metadata";
    create_test_session(&mut catalog, session_id);
    let loc = resolve(session_id).unwrap();

    let mut m = catalog.read_metadata(&loc).unwrap();
    m.description = "Original description".to_string();
    m.working_dir = "/somewhere".to_string();
    m.input_tokens = Some(3);
    m.output_tokens = Some(4);
    m.schedule_id = Some("sch".to_string());
    m.project_id = Some("proj".to_string());
    catalog.update_metadata(&loc, m).unwrap();

    let mut m = catalog.read_metadata(&loc).unwrap();
    m.description = "Updated description".to_string();
    catalog.update_metadata(&loc, m).unwrap();

    let back = catalog.read_metadata(&loc).unwrap();
    assert_eq!(back.description, "Updated description");
    assert_eq!(back.working_dir, "/somewhere");
    assert_eq!(back.input_tokens, Some(3));
    assert_eq!(back.output_tokens, Some(4));
    assert_eq!(back.schedule_id, Some("sch".to_string()));
    assert_eq!(back.project_id, Some("proj".to_string()));
    assert_eq!(back.message_count, 1);
}

#[test]
fn test_get_session_history() {
    let mut catalog = Catalog::new();
    let session_id = "test_session_history";
    let loc = resolve(session_id).unwrap();
    let messages = vec![msg("hello", 100), msg("world", 160)];
    catalog
        .append_messages(&loc, messages, "2024-01-07 10:00:00 UTC".to_string())
        .expect("append");
    let mut m = catalog.read_metadata(&loc).unwrap();
    m.description = "Test session for history".to_string();
    catalog.update_metadata(&loc, m).unwrap();

    let history = get_session_history(&catalog, session_id).unwrap();
    assert_eq!(history.session_id, session_id);
    assert_eq!(history.metadata.description, "Test session for history");
    assert_eq!(history.messages.len(), 2);
    assert_eq!(history.messages[0].content, "hello");
    assert_eq!(history.messages[1].content, "world");
    assert_eq!(history.messages[1].created, 160);
}

#[test]
fn test_get_session_history_not_found() {
    let catalog = Catalog::new();
    let r = get_session_history(&catalog, "non_existent_session");
    assert_eq!(r.unwrap_err(), SessionError::NotFound);
}

#[test]
fn test_append_extends_log_and_message_count() {
    let mut catalog = Catalog::new();
    let loc = resolve("appender").unwrap();
    catalog
        .append_messages(&loc, vec![msg("a", 10)], "2024-01-01 00:00:00 UTC".to_string())
        .unwrap();
    catalog
        .append_messages(&loc, vec![msg("b", 20), msg("c", 30)], "2024-01-02 00:00:00 UTC".to_string())
        .unwrap();
    let log = catalog.read_messages(&loc).unwrap();
    assert_eq!(log.len(), 3);
    assert_eq!(log[0].content, "a");
    assert_eq!(log[2].content, "c");
    let m = catalog.read_metadata(&loc).unwrap();
    assert_eq!(m.message_count, 3);
}

#[test]
fn test_read_messages_missing_is_not_found() {
    let catalog = Catalog::new();
    let loc = resolve("nobody").unwrap();
    assert_eq!(catalog.read_messages(&loc).unwrap_err(), SessionError::NotFound);
}
