use session_catalog::error::SessionError;
use session_catalog::listing::list_sessions;
use session_catalog::model::{Message, Role, SortOrder};
use session_catalog::resolve::resolve;
use session_catalog::store::{Catalog, SessionEntry, StoredLog, StoredMetadata};

fn seed(catalog: &mut Catalog, id: &str, description: &str, modified: &str) {
    let loc = resolve(id).expect("valid id");
    let messages = vec![Message { role: Role::User, content: "hi".to_string(), created: 100 }];
    catalog.append_messages(&loc, messages, modified.to_string()).expect("append");
    if !description.is_empty() {
        let mut m = catalog.read_metadata(&loc).unwrap();
        m.description = description.to_string();
        catalog.update_metadata(&loc, m).unwrap();
    }
}

#[test]
fn test_list_sessions() {
    let mut catalog = Catalog::new();
    seed(&mut catalog, "test_session_list", "Test session for listing", "2024-03-01 08:00:00 UTC");
    let resp = list_sessions(&catalog, SortOrder::Descending);
    assert_eq!(resp.sessions.len(), 1);
    assert_eq!(resp.sessions[0].id, "test_session_list");
    assert_eq!(resp.sessions[0].metadata.description, "Test session for listing");
}

#[test]
fn test_list_empty_catalog_is_empty_not_error() {
    let catalog = Catalog::new();
    let resp = list_sessions(&catalog, SortOrder::Descending);
    assert_eq!(resp.sessions.len(), 0);
    let resp = list_sessions(&catalog, SortOrder::Ascending);
    assert_eq!(resp.sessions.len(), 0);
}

#[test]
fn test_list_sorts_by_modified_then_id() {
    let mut catalog = Catalog::new();
    seed(&mut catalog, "bravo", "b", "2024-03-02 12:00:00 UTC");
    seed(&mut catalog, "alpha", "a", "2024-03-03 12:00:00 UTC");
    seed(&mut catalog, "delta", "d", "2024-03-02 12:00:00 UTC");
    seed(&mut catalog, "charlie", "c", "2024-03-02 12:00:00 UTC");

    let desc = list_sessions(&catalog, SortOrder::Descending);
    let ids: Vec<&str> = desc.sessions.iter().map(|s| s.id.as_str()).collect();
    assert_eq!(ids, vec!["alpha", "bravo", "charlie", "delta"]);

    let asc = list_sessions(&catalog, SortOrder::Ascending);
    let ids: Vec<&str> = asc.sessions.iter().map(|s| s.id.as_str()).collect();
    assert_eq!(ids, vec!["bravo", "charlie", "delta", "alpha"]);
}

#[test]
fn test_list_skips_corrupt_records_without_failing() {
    let mut catalog = Catalog::new();
    seed(&mut catalog, "healthy", "fine", "2024-03-01 08:00:00 UTC");
    catalog.entries.push(SessionEntry {
        id: "broken".to_string(),
        modified: "2024-03-05 08:00:00 UTC".to_string(),
        metadata: StoredMetadata::Corrupt,
        log: StoredLog::Corrupt,
    });
    let resp = list_sessions(&catalog, SortOrder::Descending);
    assert_eq!(resp.sessions.len(), 1);
    assert_eq!(resp.sessions[0].id, "healthy");
}

#[test]
fn test_list_includes_missing_metadata_as_default() {
    let mut catalog = Catalog::new();
    catalog.entries.push(SessionEntry {
        id: "bare".to_string(),
        modified: "2024-03-05 08:00:00 UTC".to_string(),
        metadata: StoredMetadata::Missing,
        log: StoredLog::Missing,
    });
    let resp = list_sessions(&catalog, SortOrder::Ascending);
    assert_eq!(resp.sessions.len(), 1);
    assert_eq!(resp.sessions[0].id, "bare");
    assert_eq!(resp.sessions[0].metadata.description, "");
    assert_eq!(resp.sessions[0].metadata.message_count, 0);
}

#[test]
fn test_corrupt_log_read_and_append() {
    let mut catalog = Catalog::new();
    catalog.entries.push(SessionEntry {
        id: "hurt".to_string(),
        modified: "2024-03-05 08:00:00 UTC".to_string(),
        metadata: StoredMetadata::Missing,
        log: StoredLog::Corrupt,
    });
    let loc = resolve("hurt").unwrap();
    assert_eq!(catalog.read_messages(&loc).unwrap_err(), SessionError::CorruptData);
    let msgs = vec![Message { role: Role::User, content: "x".to_string(), created: 1 }];
    let r = catalog.append_messages(&loc, msgs, "2024-03-06 08:00:00 UTC".to_string());
    assert_eq!(r.unwrap_err(), SessionError::CorruptData);
    // the record is left untouched
    assert_eq!(catalog.entries.len(), 1);
    assert_eq!(catalog.entries[0].modified, "2024-03-05 08:00:00 UTC");
}

#[test]
fn test_corrupt_metadata_surfaces_on_direct_read() {
    let mut catalog = Catalog::new();
    catalog.entries.push(SessionEntry {
        id: "broken".to_string(),
        modified: "2024-03-05 08:00:00 UTC".to_string(),
        metadata: StoredMetadata::Corrupt,
        log: StoredLog::Missing,
    });
    let loc = resolve("broken").unwrap();
    assert_eq!(catalog.read_metadata(&loc).unwrap_err(), SessionError::CorruptData);
}
