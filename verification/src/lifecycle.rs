//! The document destruction path: deleting a record also makes a best-effort
//! removal attempt for the blob of every canvas entry present on the record
//! at deletion time.
//!
//! Note blobs are deliberately left in place by this path, mirroring the
//! asymmetric cleanup of the source design; whether notes should be cleaned
//! up alongside canvases is an open question of that design.

use vstd::prelude::*;

use crate::blob::BlobKind;
use crate::blob::BlobStore;
use crate::document::Document;
use crate::store::DocumentStore;
use crate::store::StoreError;

verus! {

/// The blob keys of every canvas entry among the first `n` of a document.
pub open spec fn canvas_keys_prefix(doc: Document, n: int) -> Set<(BlobKind, Seq<char>, Seq<char>)> {
    Set::new(
        |k: (BlobKind, Seq<char>, Seq<char>)|
            exists|j: int|
                0 <= j < n && j < doc.canvases@.len() && k == (
                    BlobKind::Canvases,
                    doc.id@,
                    (#[trigger] doc.canvases@[j]).1.id@,
                ),
    )
}

/// The blob keys of every canvas entry of a document.
pub open spec fn canvas_keys(doc: Document) -> Set<(BlobKind, Seq<char>, Seq<char>)> {
    canvas_keys_prefix(doc, doc.canvases@.len() as int)
}

/// Delete the record stored under `(owner, id)`, after a best-effort removal
/// of the blob of every canvas entry present on the record at deletion time.
/// Fails with `NotFound`, touching nothing, exactly when no record matches.
#[verifier::loop_isolation(false)]
pub fn delete_with_cleanup(
    store: &mut DocumentStore,
    blobs: &mut BlobStore,
    owner: &str,
    id: &str,
) -> (r: Result<(), StoreError>)
    requires
        old(store).wf(),
        old(blobs).wf(),
    ensures
        final(store).wf(),
        final(blobs).wf(),
        match r {
            Ok(_) => {
                &&& old(store)@.contains_key((owner@, id@))
                &&& final(store)@ == old(store)@.remove((owner@, id@))
                &&& final(blobs)@ == old(blobs)@.remove_keys(
                    canvas_keys(old(store)@[(owner@, id@)]),
                )
                &&& forall|j: int|
                    0 <= j < old(store)@[(owner@, id@)].canvases@.len()
                        ==> !final(blobs)@.contains_key(
                        (
                            BlobKind::Canvases,
                            old(store)@[(owner@, id@)].id@,
                            (#[trigger] old(store)@[(owner@, id@)].canvases@[j]).1.id@,
                        ),
                    )
            },
            Err(e) => {
                &&& e == StoreError::NotFound
                &&& !old(store)@.contains_key((owner@, id@))
                &&& final(store)@ == old(store)@
                &&& final(blobs)@ == old(blobs)@
            },
        },
{
    let ghost b0 = blobs@;
    let doc_id: String;
    let mut canvas_ids: Vec<String> = Vec::new();
    let ghost doc_g: Document;
    match store.get_by_owner_and_id(owner, id) {
        Ok(doc) => {
            proof {
                doc_g = *doc;
            }
            doc_id = doc.id.clone();
            let mut i: usize = 0;
            while i < doc.canvases.len()
                invariant
                    i <= doc.canvases@.len(),
                    canvas_ids@.len() == i,
                    forall|j: int| 0 <= j < i ==> #[trigger] canvas_ids@[j] == doc.canvases@[j].1.id,
                decreases doc.canvases@.len() - i,
            {
                canvas_ids.push(doc.canvases[i].1.id.clone());
                i = i + 1;
            }
        },
        Err(e) => {
            return Err(e);
        },
    }
    let mut j: usize = 0;
    while j < canvas_ids.len()
        invariant
            j <= canvas_ids@.len(),
            blobs.wf(),
            blobs@ == b0.remove_keys(canvas_keys_prefix(doc_g, j as int)),
        decreases canvas_ids@.len() - j,
    {
        let ghost bprev = blobs@;
        blobs.delete_blob(BlobKind::Canvases, doc_id.as_str(), canvas_ids[j].as_str());
        proof {
            let k = (BlobKind::Canvases, doc_g.id@, doc_g.canvases@[j as int].1.id@);
            assert(canvas_keys_prefix(doc_g, j as int + 1) =~= canvas_keys_prefix(
                doc_g,
                j as int,
            ).insert(k));
            assert(blobs@ =~= b0.remove_keys(canvas_keys_prefix(doc_g, j as int + 1)));
        }
        j = j + 1;
    }
    proof {
        assert(blobs@ == b0.remove_keys(canvas_keys(doc_g)));
    }
    let res = store.delete(owner, id);
    proof {
        assert(res == Ok::<(), StoreError>(()));
        assert forall|j2: int|
            0 <= j2 < doc_g.canvases@.len() implies !blobs@.contains_key(
            (BlobKind::Canvases, doc_g.id@, (#[trigger] doc_g.canvases@[j2]).1.id@),
        ) by {
            let k = (BlobKind::Canvases, doc_g.id@, doc_g.canvases@[j2].1.id@);
            assert(canvas_keys(doc_g).contains(k));
        }
    }
    Ok(())
}

} // verus!
