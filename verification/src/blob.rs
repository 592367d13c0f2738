//! The attachment store: blob payloads addressed by a composite key of kind,
//! document id and attachment id.
//!
//! The store is modelled as a finite map from that key to the stored bytes;
//! every operation's contract is stated against that map.  The on-disk layout
//! mirrors the key: one file per blob, under a directory per kind, named
//! `{documentId}-{attachmentId}`.

use vstd::prelude::*;

use crate::document::Document;
use crate::document::str_eq;

verus! {

/// The two attachment kinds with out-of-band payloads.  Each kind has an
/// independent key space.
#[derive(Clone, Copy, Debug, PartialEq, Eq, Structural)]
pub enum BlobKind {
    Canvases,
    Notes,
}

/// Failure mode of a blob write; deletes are advisory and never fail.
#[derive(Clone, Copy, Debug, PartialEq, Eq, Structural)]
pub enum BlobError {
    IOFailure,
}

/// One stored blob.
pub struct BlobEntry {
    pub kind: BlobKind,
    pub doc_id: String,
    pub attachment_id: String,
    pub bytes: Vec<u8>,
}

impl BlobEntry {
    /// The composite key a blob is addressed by.
    pub open spec fn key(self) -> (BlobKind, Seq<char>, Seq<char>) {
        (self.kind, self.doc_id@, self.attachment_id@)
    }
}

/// No two blobs share a key.
pub open spec fn distinct_blob_keys(s: Seq<BlobEntry>) -> bool {
    forall|i: int, j: int|
        #![trigger s[i].key(), s[j].key()]
        0 <= i < s.len() && 0 <= j < s.len() && i != j ==> s[i].key() != s[j].key()
}

/// The key-to-bytes map induced by a sequence of blobs; a later blob shadows
/// an earlier one with the same key, though under [`distinct_blob_keys`] no
/// shadowing ever happens.
pub open spec fn blob_map(s: Seq<BlobEntry>) -> Map<(BlobKind, Seq<char>, Seq<char>), Seq<u8>>
    decreases s.len(),
{
    if s.len() == 0 {
        Map::empty()
    } else {
        blob_map(s.drop_last()).insert(s.last().key(), s.last().bytes@)
    }
}

proof fn lemma_blob_map_dom(s: Seq<BlobEntry>, k: (BlobKind, Seq<char>, Seq<char>))
    ensures
        blob_map(s).contains_key(k) <==> exists|i: int|
            0 <= i < s.len() && (#[trigger] s[i]).key() == k,
    decreases s.len(),
{
    if s.len() > 0 {
        lemma_blob_map_dom(s.drop_last(), k);
        if s.last().key() == k {
            assert(s[s.len() - 1].key() == k);
        } else if exists|i: int| 0 <= i < s.len() && (#[trigger] s[i]).key() == k {
            let i = choose|i: int| 0 <= i < s.len() && (#[trigger] s[i]).key() == k;
            assert(s.drop_last()[i] == s[i]);
        }
    }
}

proof fn lemma_blob_map_push(s: Seq<BlobEntry>, e: BlobEntry)
    ensures
        blob_map(s.push(e)) == blob_map(s).insert(e.key(), e.bytes@),
{
    assert(s.push(e).drop_last() =~= s);
    assert(s.push(e).last() == e);
}

proof fn lemma_blob_map_remove(s: Seq<BlobEntry>, i: int)
    requires
        distinct_blob_keys(s),
        0 <= i < s.len(),
    ensures
        blob_map(s.remove(i)) =~= blob_map(s).remove(s[i].key()),
    decreases s.len(),
{
    s.remove_ensures(i);
    let k = s[i].key();
    if i == s.len() - 1 {
        assert(s.remove(i) =~= s.drop_last());
        lemma_blob_map_dom(s.drop_last(), k);
        assert(forall|j: int|
            0 <= j < s.drop_last().len() ==> (#[trigger] s.drop_last()[j]).key() == s[j].key());
        assert(!blob_map(s.drop_last()).contains_key(k));
        assert(blob_map(s.drop_last()).remove(k) =~= blob_map(s.drop_last()));
    } else {
        assert(distinct_blob_keys(s.drop_last())) by {
            assert(forall|a: int, b: int|
                0 <= a < s.drop_last().len() && 0 <= b < s.drop_last().len() && a != b
                    ==> s.drop_last()[a] == s[a] && s.drop_last()[b] == s[b]);
        }
        assert(s.drop_last()[i] == s[i]);
        lemma_blob_map_remove(s.drop_last(), i);
        assert(s.remove(i).drop_last() =~= s.drop_last().remove(i));
        assert(s.remove(i).last() == s.last());
        assert(s.last().key() != k);
        assert(blob_map(s.drop_last()).remove(k).insert(s.last().key(), s.last().bytes@)
            =~= blob_map(s.drop_last()).insert(s.last().key(), s.last().bytes@).remove(k));
    }
}

proof fn lemma_blob_map_at(s: Seq<BlobEntry>, i: int)
    requires
        distinct_blob_keys(s),
        0 <= i < s.len(),
    ensures
        blob_map(s).contains_key(s[i].key()),
        blob_map(s)[s[i].key()] == s[i].bytes@,
    decreases s.len(),
{
    if i == s.len() - 1 {
        assert(s.last() == s[i]);
    } else {
        assert(distinct_blob_keys(s.drop_last())) by {
            assert(forall|a: int, b: int|
                0 <= a < s.drop_last().len() && 0 <= b < s.drop_last().len() && a != b
                    ==> s.drop_last()[a] == s[a] && s.drop_last()[b] == s[b]);
        }
        assert(s.drop_last()[i] == s[i]);
        lemma_blob_map_at(s.drop_last(), i);
        assert(s.last().key() != s[i].key());
    }
}

proof fn lemma_blob_remove_props(s: Seq<BlobEntry>, i: int)
    requires
        distinct_blob_keys(s),
        0 <= i < s.len(),
    ensures
        distinct_blob_keys(s.remove(i)),
        forall|j: int|
            0 <= j < s.remove(i).len() ==> (#[trigger] s.remove(i)[j]).key() != s[i].key(),
{
    s.remove_ensures(i);
}

/// An in-memory attachment store holding blobs with pairwise distinct keys.
pub struct BlobStore {
    blobs: Vec<BlobEntry>,
}

impl View for BlobStore {
    type V = Map<(BlobKind, Seq<char>, Seq<char>), Seq<u8>>;

    closed spec fn view(&self) -> Map<(BlobKind, Seq<char>, Seq<char>), Seq<u8>> {
        blob_map(self.blobs@)
    }
}

impl BlobStore {
    /// Keys are pairwise distinct.
    pub closed spec fn wf(self) -> bool {
        distinct_blob_keys(self.blobs@)
    }

    /// An empty attachment store.
    pub fn new() -> (r: BlobStore)
        ensures
            r.wf(),
            r@ == Map::<(BlobKind, Seq<char>, Seq<char>), Seq<u8>>::empty(),
    {
        BlobStore { blobs: Vec::new() }
    }

    /// The index of the blob under the given key, if any.
    fn find_index(&self, kind: BlobKind, doc_id: &str, attachment_id: &str) -> (r: Option<usize>)
        ensures
            match r {
                Some(i) => i < self.blobs@.len() && self.blobs@[i as int].key() == (
                    kind,
                    doc_id@,
                    attachment_id@,
                ),
                None => forall|i: int|
                    0 <= i < self.blobs@.len() ==> (#[trigger] self.blobs@[i]).key() != (
                    kind,
                    doc_id@,
                    attachment_id@,
                ),
            },
    {
        let mut i: usize = 0;
        while i < self.blobs.len()
            invariant
                i <= self.blobs@.len(),
                forall|j: int|
                    0 <= j < i ==> (#[trigger] self.blobs@[j]).key() != (
                    kind,
                    doc_id@,
                    attachment_id@,
                ),
            decreases self.blobs@.len() - i,
        {
            let e = &self.blobs[i];
            if e.kind == kind && str_eq(e.doc_id.as_str(), doc_id) && str_eq(
                e.attachment_id.as_str(),
                attachment_id,
            ) {
                return Some(i);
            }
            i = i + 1;
        }
        None
    }

    /// Create or fully overwrite the blob at the key — except that an empty
    /// payload is a no-op: the call reports success and any existing blob at
    /// the key is left byte for byte unchanged.
    ///
    /// Deliberately, no check is made that the document id names an existing
    /// record or one owned by the caller; the blob key space stands on its
    /// own, and an orphaned blob is an accepted outcome.
    pub fn write_blob(&mut self, kind: BlobKind, doc_id: String, attachment_id: String, bytes: Vec<u8>)
        requires
            old(self).wf(),
        ensures
            final(self).wf(),
            bytes@.len() == 0 ==> final(self)@ == old(self)@,
            bytes@.len() > 0 ==> final(self)@ == old(self)@.insert(
                (kind, doc_id@, attachment_id@),
                bytes@,
            ),
    {
        if bytes.len() == 0 {
            return ;
        }
        let ghost s0 = self.blobs@;
        let entry = BlobEntry { kind, doc_id, attachment_id, bytes };
        match self.find_index(entry.kind, entry.doc_id.as_str(), entry.attachment_id.as_str()) {
            Some(i) => {
                proof {
                    lemma_blob_map_remove(s0, i as int);
                    lemma_blob_remove_props(s0, i as int);
                }
                self.blobs.remove(i);
                let ghost s1 = self.blobs@;
                self.blobs.push(entry);
                proof {
                    lemma_blob_map_push(s1, entry);
                    assert(blob_map(s1).insert(entry.key(), entry.bytes@)
                        =~= blob_map(s0).insert(entry.key(), entry.bytes@));
                }
            },
            None => {
                self.blobs.push(entry);
                proof {
                    lemma_blob_map_push(s0, entry);
                }
            },
        }
    }

    /// Best-effort removal: afterwards no blob is stored under the key;
    /// deleting an absent blob is not an error and touches nothing.
    pub fn delete_blob(&mut self, kind: BlobKind, doc_id: &str, attachment_id: &str)
        requires
            old(self).wf(),
        ensures
            final(self).wf(),
            final(self)@ == old(self)@.remove((kind, doc_id@, attachment_id@)),
    {
        let ghost s0 = self.blobs@;
        match self.find_index(kind, doc_id, attachment_id) {
            Some(i) => {
                proof {
                    lemma_blob_map_remove(s0, i as int);
                    lemma_blob_remove_props(s0, i as int);
                }
                self.blobs.remove(i);
            },
            None => {
                proof {
                    lemma_blob_map_dom(s0, (kind, doc_id@, attachment_id@));
                    assert(blob_map(s0).remove((kind, doc_id@, attachment_id@)) =~= blob_map(s0));
                }
            },
        }
    }

    /// The bytes stored under the key, if any.
    pub fn read_blob<'a>(&'a self, kind: BlobKind, doc_id: &str, attachment_id: &str) -> (r:
        Option<&'a Vec<u8>>)
        requires
            self.wf(),
        ensures
            match r {
                Some(b) => self@.contains_key((kind, doc_id@, attachment_id@)) && b@ == self@[(
                    kind,
                    doc_id@,
                    attachment_id@,
                )],
                None => !self@.contains_key((kind, doc_id@, attachment_id@)),
            },
    {
        let ghost k = (kind, doc_id@, attachment_id@);
        proof {
            lemma_blob_map_dom(self.blobs@, k);
        }
        match self.find_index(kind, doc_id, attachment_id) {
            Some(i) => {
                proof {
                    lemma_blob_map_at(self.blobs@, i as int);
                }
                Some(&self.blobs[i].bytes)
            },
            None => None,
        }
    }
}

/// The transport status a blob failure maps to: always a server error.
pub fn blob_error_status(e: BlobError) -> (r: u16)
    ensures
        r == 500,
{
    match e {
        BlobError::IOFailure => 500,
    }
}

/// The directory a kind's blobs live under.
pub open spec fn kind_dir(kind: BlobKind) -> Seq<char> {
    match kind {
        BlobKind::Canvases => "canvases"@,
        BlobKind::Notes => "notes"@,
    }
}

/// The deterministic storage location of a blob: `kind/documentId-attachmentId`.
pub open spec fn spec_blob_path(kind: BlobKind, doc_id: Seq<char>, attachment_id: Seq<char>) -> Seq<
    char,
> {
    kind_dir(kind) + "/"@ + doc_id + "-"@ + attachment_id
}

/// Build the storage location of a blob relative to the upload root.
pub fn blob_path(kind: BlobKind, doc_id: &str, attachment_id: &str) -> (r: String)
    ensures
        r@ == spec_blob_path(kind, doc_id@, attachment_id@),
{
    let mut s = match kind {
        BlobKind::Canvases => String::from_str("canvases"),
        BlobKind::Notes => String::from_str("notes"),
    };
    s.append("/");
    s.append(doc_id);
    s.append("-");
    s.append(attachment_id);
    proof {
        assert(s@ =~= spec_blob_path(kind, doc_id@, attachment_id@));
    }
    s
}

/// The storage locations of every canvas blob referenced by a document — the
/// paths a delete must make a best-effort removal attempt for.
pub fn canvas_blob_paths(doc: &Document) -> (r: Vec<String>)
    ensures
        r@.len() == doc.canvases@.len(),
        forall|j: int|
            0 <= j < r@.len() ==> (#[trigger] r@[j])@ == spec_blob_path(
                BlobKind::Canvases,
                doc.id@,
                doc.canvases@[j].1.id@,
            ),
{
    let mut r: Vec<String> = Vec::new();
    let mut i: usize = 0;
    while i < doc.canvases.len()
        invariant
            i <= doc.canvases@.len(),
            r@.len() == i,
            forall|j: int|
                0 <= j < i ==> (#[trigger] r@[j])@ == spec_blob_path(
                    BlobKind::Canvases,
                    doc.id@,
                    doc.canvases@[j].1.id@,
                ),
        decreases doc.canvases@.len() - i,
    {
        let entry = &doc.canvases[i];
        r.push(blob_path(BlobKind::Canvases, doc.id.as_str(), entry.1.id.as_str()));
        i = i + 1;
    }
    r
}

} // verus!
