//! The document data model: a `Document` owns inline `Text` fragments and
//! references out-of-band `Note` and `Canvas` payloads by attachment id.

use vstd::prelude::*;

verus! {

/// Position of an attachment on the page, in integer page coordinates.
#[derive(Clone, Copy, Debug, PartialEq, Eq, Structural)]
pub struct Coordinate {
    pub x: i32,
    pub y: i32,
}

/// Extent of an inline text fragment, including its font size.
#[derive(Clone, Copy, Debug, PartialEq, Eq, Structural)]
pub struct TextSize {
    pub width: u32,
    pub height: u32,
    pub font_size: u32,
}

/// Extent of a note.
#[derive(Clone, Copy, Debug, PartialEq, Eq, Structural)]
pub struct Size {
    pub width: u32,
    pub height: u32,
}

/// Inline text fragment: its payload is stored inside the document record.
#[derive(Clone, Debug)]
pub struct Text {
    pub _real_content: Vec<u8>,
    pub position: Coordinate,
    pub size: TextSize,
}

/// Sticky note.  The authoritative payload lives in the attachment store once
/// the note-saving operation has been used; the inline bytes are an initial
/// value only.
#[derive(Clone, Debug)]
pub struct Note {
    pub position: Coordinate,
    pub size: Size,
    pub _real_content: Vec<u8>,
}

/// Freeform canvas: holds no payload inline, only the attachment id under
/// which its drawing data is stored in the attachment store.
#[derive(Clone, Debug)]
pub struct Canvas {
    pub position: Coordinate,
    pub id: String,
}

/// A user-owned document record.
///
/// `texts`, `notes` and `canvases` are mappings from attachment id to
/// attachment record, kept as key/value pairs; a well-formed document has no
/// repeated key within one mapping (see [`Document::wf`]).
#[derive(Clone, Debug)]
pub struct Document {
    pub title: String,
    pub description: String,
    pub date: u64,
    pub texts: Vec<(String, Text)>,
    pub notes: Vec<(String, Note)>,
    pub canvases: Vec<(String, Canvas)>,
    pub owner: String,
    pub id: String,
}

/// No repeated attachment id among the keys of one attachment mapping.
pub open spec fn unique_keys<V>(entries: Seq<(String, V)>) -> bool {
    forall|i: int, j: int|
        0 <= i < j < entries.len() ==> entries[i].0@ != entries[j].0@
}

impl Document {
    /// The pair a record is addressed by: owner first, then document id.
    pub open spec fn key(self) -> (Seq<char>, Seq<char>) {
        (self.owner@, self.id@)
    }

    /// Attachment ids are unique within each of the three mappings.
    pub open spec fn wf(self) -> bool {
        &&& unique_keys(self.texts@)
        &&& unique_keys(self.notes@)
        &&& unique_keys(self.canvases@)
    }

    /// The document carries no attachments at all.
    pub open spec fn has_no_attachments(self) -> bool {
        &&& self.texts@.len() == 0
        &&& self.notes@.len() == 0
        &&& self.canvases@.len() == 0
    }
}

/// Relies on `str`'s `PartialEq` implementation: two string slices compare
/// equal exactly when their character sequences are equal.
#[verifier::external_body]
pub(crate) fn str_eq(a: &str, b: &str) -> (r: bool)
    ensures
        r == (a@ == b@),
{
    a == b
}

/// Relies on `uuid::Uuid::new_v4` and its `Display` form: a freshly drawn
/// random version-4 UUID, rendered in the hyphenated textual form, which is
/// always 36 characters long.  Nothing else can be promised of a random id.
#[verifier::external_body]
fn fresh_document_id() -> (r: String)
    ensures
        r@.len() == 36,
{
    uuid::Uuid::new_v4().to_string()
}

/// Build a document record from the caller-supplied metadata.  A missing
/// title or description is defaulted; the record starts with no attachments
/// and belongs to the given owner.
pub fn create_document(
    id: String,
    owner: String,
    title: Option<String>,
    description: Option<String>,
    date: u64,
) -> (r: Document)
    ensures
        r.id == id,
        r.owner == owner,
        r.date == date,
        (match title {
            Some(t) => r.title == t,
            None => r.title@ == "Unnamed document"@,
        }),
        (match description {
            Some(t) => r.description == t,
            None => r.description@ == "No description provided"@,
        }),
        r.has_no_attachments(),
        r.wf(),
{
    let title = match title {
        Some(t) => t,
        None => String::from_str("Unnamed document"),
    };
    let description = match description {
        Some(t) => t,
        None => String::from_str("No description provided"),
    };
    Document {
        title,
        description,
        date,
        texts: Vec::new(),
        notes: Vec::new(),
        canvases: Vec::new(),
        owner,
        id,
    }
}

/// The add-document operation's record: a fresh random id, the authenticated
/// caller as owner, defaulted metadata, and no attachments.
pub fn new_document(
    owner: String,
    title: Option<String>,
    description: Option<String>,
    date: u64,
) -> (r: Document)
    ensures
        r.id@.len() == 36,
        r.owner == owner,
        r.date == date,
        (match title {
            Some(t) => r.title == t,
            None => r.title@ == "Unnamed document"@,
        }),
        (match description {
            Some(t) => r.description == t,
            None => r.description@ == "No description provided"@,
        }),
        r.has_no_attachments(),
        r.wf(),
{
    let id = fresh_document_id();
    create_document(id, owner, title, description, date)
}

} // verus!
