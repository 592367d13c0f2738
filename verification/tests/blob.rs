use docstore::blob::{blob_error_status, blob_path, canvas_blob_paths, BlobError, BlobKind, BlobStore};
use docstore::document::{Canvas, Coordinate, create_document};

#[test]
fn empty_write_leaves_existing_blob_unchanged() {
    let mut b = BlobStore::new();
    b.write_blob(
        BlobKind::Canvases,
        "doc".to_string(),
        "att".to_string(),
        vec![9, 8, 7],
    );
    b.write_blob(BlobKind::Canvases, "doc".to_string(), "att".to_string(), vec![]);
    assert_eq!(
        b.read_blob(BlobKind::Canvases, "doc", "att").unwrap(),
        &vec![9, 8, 7]
    );
}

#[test]
fn empty_write_creates_nothing() {
    let mut b = BlobStore::new();
    b.write_blob(BlobKind::Notes, "doc".to_string(), "att".to_string(), vec![]);
    assert!(b.read_blob(BlobKind::Notes, "doc", "att").is_none());
}

#[test]
fn write_fully_overwrites() {
    let mut b = BlobStore::new();
    b.write_blob(BlobKind::Notes, "doc".to_string(), "att".to_string(), vec![1, 2]);
    b.write_blob(BlobKind::Notes, "doc".to_string(), "att".to_string(), vec![3]);
    assert_eq!(b.read_blob(BlobKind::Notes, "doc", "att").unwrap(), &vec![3]);
}

#[test]
fn kinds_address_independent_blobs() {
    let mut b = BlobStore::new();
    b.write_blob(BlobKind::Canvases, "doc".to_string(), "att".to_string(), vec![1]);
    b.write_blob(BlobKind::Notes, "doc".to_string(), "att".to_string(), vec![2]);
    assert_eq!(b.read_blob(BlobKind::Canvases, "doc", "att").unwrap(), &vec![1]);
    assert_eq!(b.read_blob(BlobKind::Notes, "doc", "att").unwrap(), &vec![2]);
}

#[test]
fn delete_removes_and_absent_delete_is_quiet() {
    let mut b = BlobStore::new();
    b.write_blob(BlobKind::Canvases, "doc".to_string(), "att".to_string(), vec![1]);
    b.delete_blob(BlobKind::Canvases, "doc", "att");
    assert!(b.read_blob(BlobKind::Canvases, "doc", "att").is_none());
    // deleting what is not there is swallowed, not surfaced
    b.delete_blob(BlobKind::Canvases, "doc", "att");
    b.delete_blob(BlobKind::Notes, "never", "written");
}

#[test]
fn blob_paths_partition_by_kind() {
    assert_eq!(blob_path(BlobKind::Canvases, "doc", "att"), "canvases/doc-att");
    assert_eq!(blob_path(BlobKind::Notes, "doc", "att"), "notes/doc-att");
}

#[test]
fn canvas_paths_cover_every_canvas_entry() {
    let mut d = create_document("the-doc".to_string(), "o".to_string(), None, None, 0);
    for n in ["c1", "c2"] {
        d.canvases.push((
            n.to_string(),
            Canvas {
                position: Coordinate { x: 0, y: 0 },
                id: format!("id-{n}"),
            },
        ));
    }
    assert_eq!(
        canvas_blob_paths(&d),
        vec![
            "canvases/the-doc-id-c1".to_string(),
            "canvases/the-doc-id-c2".to_string()
        ]
    );
}

#[test]
fn blob_failures_are_server_errors() {
    assert_eq!(blob_error_status(BlobError::IOFailure), 500);
}
