use docstore::blob::{BlobKind, BlobStore};
use docstore::document::{create_document, new_document, Canvas, Coordinate, Document};
use docstore::lifecycle::delete_with_cleanup;
use docstore::store::{
    decoded_for_owner, plan_set_doc, store_error_status, DocumentStore, StoreError, UpsertAction,
};

fn doc(owner: &str, id: &str, title: &str) -> Document {
    create_document(
        id.to_string(),
        owner.to_string(),
        Some(title.to_string()),
        Some("d".to_string()),
        5,
    )
}

fn with_canvas(mut d: Document, key: &str, canvas_id: &str) -> Document {
    d.canvases.push((
        key.to_string(),
        Canvas {
            position: Coordinate { x: 1, y: 2 },
            id: canvas_id.to_string(),
        },
    ));
    d
}

#[test]
fn upsert_then_get_returns_equal_document() {
    let mut s = DocumentStore::new();
    let d = with_canvas(doc("alice", "id-1", "Plan"), "c1", "cv-9");
    s.upsert(d);
    let got = s.get_by_owner_and_id("alice", "id-1").unwrap();
    assert_eq!(got.owner, "alice");
    assert_eq!(got.id, "id-1");
    assert_eq!(got.title, "Plan");
    assert_eq!(got.description, "d");
    assert_eq!(got.date, 5);
    assert_eq!(got.texts.len(), 0);
    assert_eq!(got.notes.len(), 0);
    assert_eq!(got.canvases.len(), 1);
    assert_eq!(got.canvases[0].0, "c1");
    assert_eq!(got.canvases[0].1.id, "cv-9");
    assert_eq!(got.canvases[0].1.position.x, 1);
    assert_eq!(got.canvases[0].1.position.y, 2);
}

#[test]
fn upsert_is_idempotent() {
    let mut s = DocumentStore::new();
    s.upsert(doc("alice", "id-1", "Plan"));
    s.upsert(doc("alice", "id-1", "Plan"));
    let listed = s.list_by_owner("alice");
    assert_eq!(listed.len(), 1);
    assert_eq!(listed[0].title, "Plan");
}

#[test]
fn upsert_replaces_wholesale() {
    let mut s = DocumentStore::new();
    s.upsert(with_canvas(doc("alice", "id-1", "Plan"), "c1", "cv-9"));
    s.upsert(doc("alice", "id-1", "Replacement"));
    let got = s.get_by_owner_and_id("alice", "id-1").unwrap();
    assert_eq!(got.title, "Replacement");
    // the whole record was replaced, not merged
    assert_eq!(got.canvases.len(), 0);
    assert_eq!(s.list_by_owner("alice").len(), 1);
}

#[test]
fn list_by_owner_is_exactly_the_owners_documents() {
    let mut s = DocumentStore::new();
    s.upsert(doc("alice", "id-1", "A1"));
    s.upsert(doc("alice", "id-2", "A2"));
    s.upsert(doc("bob", "id-3", "B1"));
    let mut titles: Vec<String> = s
        .list_by_owner("alice")
        .iter()
        .map(|d| d.title.clone())
        .collect();
    titles.sort();
    assert_eq!(titles, vec!["A1".to_string(), "A2".to_string()]);
    for d in s.list_by_owner("alice") {
        assert_eq!(d.owner, "alice");
    }
    assert_eq!(s.list_by_owner("bob").len(), 1);
    assert_eq!(s.list_by_owner("carol").len(), 0);
}

#[test]
fn get_never_crosses_owners() {
    let mut s = DocumentStore::new();
    s.upsert(doc("alice", "id-1", "A1"));
    assert!(matches!(
        s.get_by_owner_and_id("bob", "id-1"),
        Err(StoreError::NotFound)
    ));
    assert!(s.get_by_owner_and_id("alice", "id-1").is_ok());
}

#[test]
fn delete_then_get_is_not_found() {
    let mut s = DocumentStore::new();
    s.upsert(doc("alice", "id-1", "A1"));
    assert!(s.delete("alice", "id-1").is_ok());
    assert!(matches!(
        s.get_by_owner_and_id("alice", "id-1"),
        Err(StoreError::NotFound)
    ));
    assert!(matches!(
        s.delete("alice", "id-1"),
        Err(StoreError::NotFound)
    ));
}

#[test]
fn delete_cleans_up_canvas_blobs_and_leaves_notes() {
    let mut s = DocumentStore::new();
    let mut b = BlobStore::new();
    s.upsert(with_canvas(doc("alice", "id-1", "A1"), "c1", "cv-9"));
    b.write_blob(
        BlobKind::Canvases,
        "id-1".to_string(),
        "cv-9".to_string(),
        vec![1, 2, 3],
    );
    b.write_blob(
        BlobKind::Notes,
        "id-1".to_string(),
        "n-1".to_string(),
        vec![4],
    );
    assert!(delete_with_cleanup(&mut s, &mut b, "alice", "id-1").is_ok());
    assert!(matches!(
        s.get_by_owner_and_id("alice", "id-1"),
        Err(StoreError::NotFound)
    ));
    // a removal attempt was made for every canvas entry of the record
    assert!(b.read_blob(BlobKind::Canvases, "id-1", "cv-9").is_none());
    // note blobs are not touched by this path
    assert_eq!(b.read_blob(BlobKind::Notes, "id-1", "n-1").unwrap(), &vec![4]);
}

#[test]
fn delete_with_cleanup_not_found_touches_nothing() {
    let mut s = DocumentStore::new();
    let mut b = BlobStore::new();
    b.write_blob(
        BlobKind::Canvases,
        "id-1".to_string(),
        "cv-9".to_string(),
        vec![1],
    );
    assert!(matches!(
        delete_with_cleanup(&mut s, &mut b, "alice", "id-1"),
        Err(StoreError::NotFound)
    ));
    assert!(b.read_blob(BlobKind::Canvases, "id-1", "cv-9").is_some());
}

#[test]
fn second_insert_of_same_key_is_a_conflict() {
    let mut s = DocumentStore::new();
    assert!(s.try_insert(doc("alice", "id-1", "first")).is_ok());
    assert!(matches!(
        s.try_insert(doc("alice", "id-1", "second")),
        Err(StoreError::WriteConflict)
    ));
    // the stored state still holds the first record
    let got = s.get_by_owner_and_id("alice", "id-1").unwrap();
    assert_eq!(got.title, "first");
}

#[test]
fn created_document_has_defaults_and_fresh_id() {
    let d = new_document("caller-suid".to_string(), Some("Plan".to_string()), None, 0);
    assert_eq!(d.id.len(), 36);
    assert_eq!(d.owner, "caller-suid");
    assert_eq!(d.title, "Plan");
    assert_eq!(d.description, "No description provided");
    assert_eq!(d.texts.len(), 0);
    assert_eq!(d.notes.len(), 0);
    assert_eq!(d.canvases.len(), 0);
    let d2 = new_document("caller-suid".to_string(), Some("Plan".to_string()), None, 0);
    assert_ne!(d.id, d2.id);
}

#[test]
fn created_document_defaults_title_too() {
    let d = new_document("o".to_string(), None, Some("desc".to_string()), 9);
    assert_eq!(d.title, "Unnamed document");
    assert_eq!(d.description, "desc");
    assert_eq!(d.date, 9);
}

#[test]
fn decoded_rows_skip_failures_and_other_owners() {
    let rows = vec![
        Some(doc("alice", "id-1", "A1")),
        None,
        Some(doc("bob", "id-2", "B1")),
        Some(doc("alice", "id-3", "A2")),
        None,
    ];
    let kept = decoded_for_owner(&rows, "alice");
    let titles: Vec<&str> = kept.iter().map(|d| d.title.as_str()).collect();
    assert_eq!(titles, vec!["A1", "A2"]);
}

#[test]
fn plan_set_doc_forces_owner_and_picks_action() {
    let d = doc("mallory", "id-1", "T");
    let (stored, action) = plan_set_doc(d, "alice".to_string(), false);
    assert_eq!(stored.owner, "alice");
    assert_eq!(stored.id, "id-1");
    assert_eq!(stored.title, "T");
    assert_eq!(action, UpsertAction::Insert);
    let d2 = doc("mallory", "id-1", "T");
    let (_, action2) = plan_set_doc(d2, "alice".to_string(), true);
    assert_eq!(action2, UpsertAction::Replace);
}

#[test]
fn store_failures_map_to_expected_statuses() {
    assert_eq!(store_error_status(StoreError::NotFound), 404);
    assert_eq!(store_error_status(StoreError::ConnectionFailed), 500);
    assert_eq!(store_error_status(StoreError::WriteConflict), 500);
}
