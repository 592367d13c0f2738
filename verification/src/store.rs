//! The document repository: owner-scoped create/read/update/delete over
//! document records.
//!
//! The repository is modelled as a finite map from `(owner, id)` to the
//! stored record; every operation's contract is stated against that map.

use vstd::prelude::*;

use crate::document::Document;
use crate::document::str_eq;

verus! {

/// Failure modes of the repository.
///
/// `NotFound` is an expected, recoverable outcome; `ConnectionFailed` marks a
/// store that could not be reached at all; `WriteConflict` is raised by the
/// conflict-checked insert when the key is already taken.
#[derive(Clone, Copy, Debug, PartialEq, Eq, Structural)]
pub enum StoreError {
    NotFound,
    ConnectionFailed,
    WriteConflict,
}

/// No two records share an `(owner, id)` key.
pub open spec fn distinct_doc_keys(s: Seq<Document>) -> bool {
    forall|i: int, j: int|
        #![trigger s[i].key(), s[j].key()]
        0 <= i < s.len() && 0 <= j < s.len() && i != j ==> s[i].key() != s[j].key()
}

/// Every record is well formed.
pub open spec fn all_docs_wf(s: Seq<Document>) -> bool {
    forall|i: int| 0 <= i < s.len() ==> (#[trigger] s[i]).wf()
}

/// The record map induced by a sequence of documents; a later record shadows
/// an earlier one with the same key, though under [`distinct_doc_keys`] no
/// shadowing ever happens.
pub open spec fn store_map(s: Seq<Document>) -> Map<(Seq<char>, Seq<char>), Document>
    decreases s.len(),
{
    if s.len() == 0 {
        Map::empty()
    } else {
        store_map(s.drop_last()).insert(s.last().key(), s.last())
    }
}

proof fn lemma_store_map_dom(s: Seq<Document>, k: (Seq<char>, Seq<char>))
    ensures
        store_map(s).contains_key(k) <==> exists|i: int|
            0 <= i < s.len() && (#[trigger] s[i]).key() == k,
    decreases s.len(),
{
    if s.len() > 0 {
        lemma_store_map_dom(s.drop_last(), k);
        if s.last().key() == k {
            assert(s[s.len() - 1].key() == k);
        } else if exists|i: int| 0 <= i < s.len() && (#[trigger] s[i]).key() == k {
            let i = choose|i: int| 0 <= i < s.len() && (#[trigger] s[i]).key() == k;
            assert(s.drop_last()[i] == s[i]);
        }
    }
}

proof fn lemma_store_map_at(s: Seq<Document>, i: int)
    requires
        distinct_doc_keys(s),
        0 <= i < s.len(),
    ensures
        store_map(s).contains_key(s[i].key()),
        store_map(s)[s[i].key()] == s[i],
    decreases s.len(),
{
    if i == s.len() - 1 {
        assert(s.last() == s[i]);
    } else {
        assert(distinct_doc_keys(s.drop_last())) by {
            assert(forall|a: int, b: int|
                0 <= a < s.drop_last().len() && 0 <= b < s.drop_last().len() && a != b
                    ==> s.drop_last()[a] == s[a] && s.drop_last()[b] == s[b]);
        }
        assert(s.drop_last()[i] == s[i]);
        lemma_store_map_at(s.drop_last(), i);
        assert(s.last().key() != s[i].key());
    }
}

proof fn lemma_store_map_push(s: Seq<Document>, d: Document)
    ensures
        store_map(s.push(d)) == store_map(s).insert(d.key(), d),
{
    assert(s.push(d).drop_last() =~= s);
    assert(s.push(d).last() == d);
}

proof fn lemma_store_map_remove(s: Seq<Document>, i: int)
    requires
        distinct_doc_keys(s),
        0 <= i < s.len(),
    ensures
        store_map(s.remove(i)) =~= store_map(s).remove(s[i].key()),
    decreases s.len(),
{
    s.remove_ensures(i);
    let k = s[i].key();
    if i == s.len() - 1 {
        assert(s.remove(i) =~= s.drop_last());
        lemma_store_map_dom(s.drop_last(), k);
        assert(forall|j: int|
            0 <= j < s.drop_last().len() ==> (#[trigger] s.drop_last()[j]).key() == s[j].key());
        assert(!store_map(s.drop_last()).contains_key(k));
        assert(store_map(s.drop_last()).remove(k) =~= store_map(s.drop_last()));
    } else {
        assert(distinct_doc_keys(s.drop_last())) by {
            assert(forall|a: int, b: int|
                0 <= a < s.drop_last().len() && 0 <= b < s.drop_last().len() && a != b
                    ==> s.drop_last()[a] == s[a] && s.drop_last()[b] == s[b]);
        }
        assert(s.drop_last()[i] == s[i]);
        lemma_store_map_remove(s.drop_last(), i);
        assert(s.remove(i).drop_last() =~= s.drop_last().remove(i));
        assert(s.remove(i).last() == s.last());
        // store_map(s.remove(i)) == store_map(s.drop_last().remove(i)).insert(last.key, last)
        //                        == store_map(s.drop_last()).remove(k).insert(last.key, last)
        // and the insert and the remove commute because last.key() != k.
        assert(s.last().key() != k);
        assert(store_map(s.drop_last()).remove(k).insert(s.last().key(), s.last())
            =~= store_map(s.drop_last()).insert(s.last().key(), s.last()).remove(k));
    }
}

proof fn lemma_remove_props(s: Seq<Document>, i: int)
    requires
        distinct_doc_keys(s),
        all_docs_wf(s),
        0 <= i < s.len(),
    ensures
        distinct_doc_keys(s.remove(i)),
        all_docs_wf(s.remove(i)),
        forall|j: int|
            0 <= j < s.remove(i).len() ==> (#[trigger] s.remove(i)[j]).key() != s[i].key(),
{
    s.remove_ensures(i);
}

/// Law: a record put in place by an upsert is exactly what a subsequent
/// lookup under its owner and id finds, field for field.
pub proof fn lemma_upsert_then_get(
    m: Map<(Seq<char>, Seq<char>), Document>,
    d: Document,
)
    ensures
        m.insert(d.key(), d).contains_key(d.key()),
        m.insert(d.key(), d)[d.key()] == d,
{
}

/// Law: upsert is idempotent — writing the same record twice leaves the same
/// stored state as writing it once.
pub proof fn lemma_upsert_idempotent(
    m: Map<(Seq<char>, Seq<char>), Document>,
    d: Document,
)
    ensures
        m.insert(d.key(), d).insert(d.key(), d) == m.insert(d.key(), d),
{
    assert(m.insert(d.key(), d).insert(d.key(), d) =~= m.insert(d.key(), d));
}

/// Law: an upsert of one record leaves every record under a different key
/// untouched — in particular every record of every other owner.
pub proof fn lemma_upsert_frames_others(
    m: Map<(Seq<char>, Seq<char>), Document>,
    d: Document,
    k: (Seq<char>, Seq<char>),
)
    requires
        k != d.key(),
    ensures
        m.insert(d.key(), d).contains_key(k) == m.contains_key(k),
        m.contains_key(k) ==> m.insert(d.key(), d)[k] == m[k],
{
}

/// Law: after a successful delete of `(owner, id)` the stored state holds no
/// record under that key, so a lookup of the same pair fails with `NotFound`.
pub proof fn lemma_delete_then_get(
    m: Map<(Seq<char>, Seq<char>), Document>,
    owner: Seq<char>,
    id: Seq<char>,
)
    ensures
        !m.remove((owner, id)).contains_key((owner, id)),
{
}

/// Law: once a record with a given key is stored, the stored state contains
/// that key, so a second conflict-checked insert of the same key is refused
/// as a `WriteConflict` by the `try_insert` contract instead of storing a
/// duplicate.
pub proof fn lemma_second_insert_conflicts(
    m: Map<(Seq<char>, Seq<char>), Document>,
    d1: Document,
    d2: Document,
)
    requires
        d2.key() == d1.key(),
    ensures
        m.insert(d1.key(), d1).contains_key(d2.key()),
{
}

/// An in-memory document repository holding owner-scoped records with
/// pairwise distinct `(owner, id)` keys.
pub struct DocumentStore {
    docs: Vec<Document>,
}

impl View for DocumentStore {
    type V = Map<(Seq<char>, Seq<char>), Document>;

    closed spec fn view(&self) -> Map<(Seq<char>, Seq<char>), Document> {
        store_map(self.docs@)
    }
}

impl DocumentStore {
    /// Keys are pairwise distinct and every stored record is well formed.
    pub closed spec fn wf(self) -> bool {
        &&& distinct_doc_keys(self.docs@)
        &&& all_docs_wf(self.docs@)
    }

    /// An empty repository.
    pub fn new() -> (r: DocumentStore)
        ensures
            r.wf(),
            r@ == Map::<(Seq<char>, Seq<char>), Document>::empty(),
    {
        DocumentStore { docs: Vec::new() }
    }

    /// The index of the record matching both fields exactly, if any.
    fn find_index(&self, owner: &str, id: &str) -> (r: Option<usize>)
        ensures
            match r {
                Some(i) => i < self.docs@.len() && self.docs@[i as int].key() == (owner@, id@),
                None => forall|i: int|
                    0 <= i < self.docs@.len() ==> (#[trigger] self.docs@[i]).key() != (owner@, id@),
            },
    {
        let mut i: usize = 0;
        while i < self.docs.len()
            invariant
                i <= self.docs@.len(),
                forall|j: int| 0 <= j < i ==> (#[trigger] self.docs@[j]).key() != (owner@, id@),
            decreases self.docs@.len() - i,
        {
            let d = &self.docs[i];
            if str_eq(d.owner.as_str(), owner) && str_eq(d.id.as_str(), id) {
                return Some(i);
            }
            i = i + 1;
        }
        None
    }

    /// The record stored under `(owner, id)`, or `NotFound` exactly when no
    /// record matches both fields.
    pub fn get_by_owner_and_id<'a>(&'a self, owner: &str, id: &str) -> (r: Result<
        &'a Document,
        StoreError,
    >)
        requires
            self.wf(),
        ensures
            match r {
                Ok(d) => self@.contains_key((owner@, id@)) && *d == self@[(owner@, id@)],
                Err(e) => e == StoreError::NotFound && !self@.contains_key((owner@, id@)),
            },
    {
        match self.find_index(owner, id) {
            Some(i) => {
                proof {
                    lemma_store_map_at(self.docs@, i as int);
                }
                Ok(&self.docs[i])
            },
            None => {
                proof {
                    lemma_store_map_dom(self.docs@, (owner@, id@));
                }
                Err(StoreError::NotFound)
            },
        }
    }

    /// Insert-if-absent-else-replace, as one whole-record write: afterwards
    /// the stored state is the old state with `d` at `(d.owner, d.id)`, and
    /// no other record is touched.
    pub fn upsert(&mut self, d: Document)
        requires
            old(self).wf(),
            d.wf(),
        ensures
            final(self).wf(),
            final(self)@ == old(self)@.insert(d.key(), d),
    {
        let ghost s0 = self.docs@;
        match self.find_index(d.owner.as_str(), d.id.as_str()) {
            Some(i) => {
                proof {
                    lemma_store_map_remove(s0, i as int);
                    lemma_remove_props(s0, i as int);
                }
                self.docs.remove(i);
                let ghost s1 = self.docs@;
                self.docs.push(d);
                proof {
                    lemma_store_map_push(s1, d);
                    assert(store_map(s1).insert(d.key(), d)
                        =~= store_map(s0).insert(d.key(), d));
                }
            },
            None => {
                self.docs.push(d);
                proof {
                    lemma_store_map_push(s0, d);
                }
            },
        }
    }

    /// The hardened, conflict-checked insert: a brand-new `(owner, id)` key is
    /// stored, an already-taken key is refused as a `WriteConflict` and the
    /// stored state is left untouched.
    pub fn try_insert(&mut self, d: Document) -> (r: Result<(), StoreError>)
        requires
            old(self).wf(),
            d.wf(),
        ensures
            final(self).wf(),
            old(self)@.contains_key(d.key()) ==> r == Err::<(), StoreError>(
                StoreError::WriteConflict,
            ) && final(self)@ == old(self)@,
            !old(self)@.contains_key(d.key()) ==> r == Ok::<(), StoreError>(())
                && final(self)@ == old(self)@.insert(d.key(), d),
    {
        let ghost s0 = self.docs@;
        proof {
            lemma_store_map_dom(s0, d.key());
        }
        match self.find_index(d.owner.as_str(), d.id.as_str()) {
            Some(i) => {
                proof {
                    assert(s0[i as int].key() == d.key());
                }
                Err(StoreError::WriteConflict)
            },
            None => {
                self.docs.push(d);
                proof {
                    lemma_store_map_push(s0, d);
                }
                Ok(())
            },
        }
    }

    /// Remove the record under `(owner, id)`; `NotFound` exactly when there
    /// is none, in which case the stored state is untouched.
    pub fn delete(&mut self, owner: &str, id: &str) -> (r: Result<(), StoreError>)
        requires
            old(self).wf(),
        ensures
            final(self).wf(),
            old(self)@.contains_key((owner@, id@)) ==> r == Ok::<(), StoreError>(())
                && final(self)@ == old(self)@.remove((owner@, id@)),
            !old(self)@.contains_key((owner@, id@)) ==> r == Err::<(), StoreError>(
                StoreError::NotFound,
            ) && final(self)@ == old(self)@,
    {
        let ghost s0 = self.docs@;
        proof {
            lemma_store_map_dom(s0, (owner@, id@));
        }
        match self.find_index(owner, id) {
            Some(i) => {
                proof {
                    assert(s0[i as int].key() == (owner@, id@));
                    lemma_store_map_remove(s0, i as int);
                    lemma_remove_props(s0, i as int);
                }
                self.docs.remove(i);
                Ok(())
            },
            None => Err(StoreError::NotFound),
        }
    }

    /// All records whose `owner` field equals the argument — exactly those, in
    /// no particular order, each reported once.
    #[verifier::loop_isolation(false)]
    pub fn list_by_owner<'a>(&'a self, owner: &str) -> (r: Vec<&'a Document>)
        requires
            self.wf(),
        ensures
            forall|t: int|
                0 <= t < r@.len() ==> (*#[trigger] r@[t]).owner@ == owner@ && self@.contains_key(
                    (*r@[t]).key(),
                ) && self@[(*r@[t]).key()] == *r@[t],
            forall|k: (Seq<char>, Seq<char>)|
                #[trigger] self@.contains_key(k) && self@[k].owner@ == owner@ ==> exists|t: int|
                    0 <= t < r@.len() && *r@[t] == self@[k],
            forall|t1: int, t2: int|
                0 <= t1 < r@.len() && 0 <= t2 < r@.len() && t1 != t2 ==> (*r@[t1]).key() != (
                *r@[t2]).key(),
    {
        let mut r: Vec<&'a Document> = Vec::new();
        let ghost mut idx: Seq<int> = Seq::empty();
        let mut i: usize = 0;
        while i < self.docs.len()
            invariant
                i <= self.docs@.len(),
                idx.len() == r@.len(),
                forall|t: int| 0 <= t < r@.len() ==> 0 <= #[trigger] idx[t] < i,
                forall|t: int|
                    0 <= t < r@.len() ==> *#[trigger] r@[t] == self.docs@[idx[t]],
                forall|t: int|
                    0 <= t < r@.len() ==> (*#[trigger] r@[t]).owner@ == owner@,
                forall|t1: int, t2: int|
                    #![trigger idx[t1], idx[t2]]
                    0 <= t1 < t2 < r@.len() ==> idx[t1] < idx[t2],
                forall|j: int|
                    0 <= j < i && (#[trigger] self.docs@[j]).owner@ == owner@ ==> exists|t: int|
                        0 <= t < r@.len() && #[trigger] idx[t] == j,
            decreases self.docs@.len() - i,
        {
            let d = &self.docs[i];
            let matched = str_eq(d.owner.as_str(), owner);
            let ghost idx0 = idx;
            if matched {
                r.push(d);
                proof {
                    idx = idx.push(i as int);
                }
            }
            proof {
                if matched {
                    assert(forall|t: int| 0 <= t < idx0.len() ==> #[trigger] idx[t] == idx0[t]);
                    assert(idx[idx.len() - 1] == i as int);
                    assert(*r@[r@.len() - 1] == self.docs@[i as int]);
                    assert forall|j: int|
                        0 <= j <= i as int && (#[trigger] self.docs@[j]).owner@
                            == owner@ implies exists|t: int|
                        0 <= t < r@.len() && #[trigger] idx[t] == j by {
                        if j == i as int {
                            assert(idx[idx.len() - 1] == j);
                        } else {
                            let t = choose|t: int| 0 <= t < idx0.len() && #[trigger] idx0[t] == j;
                            assert(idx[t] == j);
                        }
                    }
                } else {
                    assert(self.docs@[i as int].owner@ != owner@);
                }
            }
            i = i + 1;
        }
        proof {
            assert forall|t: int|
                0 <= t < r@.len() implies (*#[trigger] r@[t]).owner@ == owner@
                && self@.contains_key((*r@[t]).key()) && self@[(*r@[t]).key()] == *r@[t] by {
                lemma_store_map_at(self.docs@, idx[t]);
            }
            assert forall|k: (Seq<char>, Seq<char>)|
                #[trigger] self@.contains_key(k) && self@[k].owner@ == owner@ implies exists|t: int|
                0 <= t < r@.len() && *r@[t] == self@[k] by {
                lemma_store_map_dom(self.docs@, k);
                let j = choose|j: int|
                    0 <= j < self.docs@.len() && (#[trigger] self.docs@[j]).key() == k;
                lemma_store_map_at(self.docs@, j);
                let t = choose|t: int| 0 <= t < r@.len() && #[trigger] idx[t] == j;
                assert(*r@[t] == self@[k]);
            }
            assert forall|t1: int, t2: int|
                0 <= t1 < r@.len() && 0 <= t2 < r@.len() && t1 != t2 implies (*r@[t1]).key() != (
            *r@[t2]).key() by {
                assert(idx[t1] != idx[t2]);
                assert(self.docs@[idx[t1]].key() != self.docs@[idx[t2]].key());
            }
        }
        r
    }
}

/// The records a list scan keeps: each row that decoded at all and whose
/// `owner` equals the argument, in row order.  A row that failed to decode is
/// skipped rather than aborting the whole scan.
pub open spec fn decoded_owned(rows: Seq<Option<Document>>, owner: Seq<char>) -> Seq<Document>
    decreases rows.len(),
{
    if rows.len() == 0 {
        Seq::empty()
    } else {
        let rest = decoded_owned(rows.drop_last(), owner);
        match rows.last() {
            Some(d) => if d.owner@ == owner {
                rest.push(d)
            } else {
                rest
            },
            None => rest,
        }
    }
}

/// Law: the list scan never keeps a record of a different owner, and it keeps
/// every row that decoded to a record of the owner — dropping exactly the
/// rows that failed to decode and the records of other owners.
pub proof fn lemma_decoded_owned_exact(rows: Seq<Option<Document>>, owner: Seq<char>)
    ensures
        forall|t: int|
            0 <= t < decoded_owned(rows, owner).len() ==> (#[trigger] decoded_owned(rows, owner)[t]).owner@
                == owner,
        forall|i: int|
            0 <= i < rows.len() && (#[trigger] rows[i]) is Some && rows[i]->Some_0.owner@ == owner
                ==> decoded_owned(rows, owner).contains(rows[i]->Some_0),
    decreases rows.len(),
{
    if rows.len() > 0 {
        lemma_decoded_owned_exact(rows.drop_last(), owner);
        let rest = decoded_owned(rows.drop_last(), owner);
        assert(forall|i: int| 0 <= i < rows.len() - 1 ==> rows.drop_last()[i] == rows[i]);
        assert forall|i: int|
            0 <= i < rows.len() && (#[trigger] rows[i]) is Some && rows[i]->Some_0.owner@
                == owner implies decoded_owned(rows, owner).contains(rows[i]->Some_0) by {
            let d = rows[i]->Some_0;
            if i < rows.len() - 1 {
                assert(rest.contains(d));
                let j = choose|j: int| 0 <= j < rest.len() && rest[j] == d;
                assert(decoded_owned(rows, owner)[j] == d);
            } else {
                assert(decoded_owned(rows, owner).last() == d);
            }
        }
    }
}

/// Apply the skip-on-error list policy to a sequence of per-row decode
/// outcomes: keep exactly the rows that decoded and belong to the owner.
#[verifier::loop_isolation(false)]
pub fn decoded_for_owner<'a>(rows: &'a Vec<Option<Document>>, owner: &str) -> (r: Vec<
    &'a Document,
>)
    ensures
        r@.map_values(|p: &Document| *p) == decoded_owned(rows@, owner@),
{
    let mut r: Vec<&'a Document> = Vec::new();
    let mut i: usize = 0;
    while i < rows.len()
        invariant
            i <= rows@.len(),
            r@.map_values(|p: &Document| *p) == decoded_owned(rows@.take(i as int), owner@),
        decreases rows@.len() - i,
    {
        let ghost r0 = r@;
        match &rows[i] {
            Some(d) => {
                if str_eq(d.owner.as_str(), owner) {
                    r.push(d);
                }
            },
            None => {},
        }
        proof {
            assert(rows@.take(i as int + 1).drop_last() =~= rows@.take(i as int));
            assert(rows@.take(i as int + 1).last() == rows@[i as int]);
            assert(r@.map_values(|p: &Document| *p) =~= decoded_owned(
                rows@.take(i as int + 1),
                owner@,
            ));
        }
        i = i + 1;
    }
    proof {
        assert(rows@.take(rows@.len() as int) =~= rows@);
    }
    r
}

/// The transport status a repository failure maps to: a missing record is the
/// not-found status, any other store failure is a server error.
pub fn store_error_status(e: StoreError) -> (r: u16)
    ensures
        r == (match e {
            StoreError::NotFound => 404u16,
            StoreError::ConnectionFailed => 500u16,
            StoreError::WriteConflict => 500u16,
        }),
{
    match e {
        StoreError::NotFound => 404,
        StoreError::ConnectionFailed => 500,
        StoreError::WriteConflict => 500,
    }
}

/// Whether a set-document request replaces an existing record or inserts a
/// new one.
#[derive(Clone, Copy, Debug, PartialEq, Eq, Structural)]
pub enum UpsertAction {
    Replace,
    Insert,
}

/// The decision at the heart of the set-document operation: the record to
/// store is the caller-supplied one with its `owner` field forced to the
/// authenticated owner — a later update can never reassign a document — and
/// an existing `(owner, id)` record is replaced wholesale while a missing one
/// is inserted.
pub fn plan_set_doc(doc: Document, owner: String, exists: bool) -> (r: (Document, UpsertAction))
    ensures
        r.0.owner == owner,
        r.0.title == doc.title,
        r.0.description == doc.description,
        r.0.date == doc.date,
        r.0.texts == doc.texts,
        r.0.notes == doc.notes,
        r.0.canvases == doc.canvases,
        r.0.id == doc.id,
        r.1 == (if exists {
            UpsertAction::Replace
        } else {
            UpsertAction::Insert
        }),
{
    let mut d = doc;
    d.owner = owner;
    let action = if exists {
        UpsertAction::Replace
    } else {
        UpsertAction::Insert
    };
    (d, action)
}

} // verus!
