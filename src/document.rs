use vstd::prelude::*;

use crate::ids::{is_alphanumeric, now_timestamp, random_alphanumeric};
use crate::similar::Distance;
use crate::text::string_of;

verus! {

/// A record that the vector index can store: an id, a text and two
/// timestamps (seconds since the epoch).
pub trait Documentable {
    fn id(&self) -> &str;

    fn text(&self) -> &str;

    fn created(&self) -> i64;

    fn modified(&self) -> i64;

    fn set_id(&mut self, id: String);

    fn set_text(&mut self, text: String);

    fn set_created(&mut self, created: i64);

    fn set_modified(&mut self, modified: i64);
}

/// Length of a generated document id.
pub const DOCUMENT_ID_LEN: usize = 6;

/// A plain [`Documentable`] record.
#[derive(Clone, Debug)]
pub struct Document {
    pub id: String,
    pub text: String,
    pub created: i64,
    pub modified: i64,
}

impl PartialEq for Document {
    fn eq(&self, other: &Document) -> (r: bool)
        ensures
            r == (self.id@ == other.id@),
    {
        self.id == other.id
    }
}

impl vstd::std_specs::cmp::PartialEqSpecImpl for Document {
    open spec fn obeys_eq_spec() -> bool {
        true
    }

    open spec fn eq_spec(&self, other: &Document) -> bool {
        self.id@ == other.id@
    }
}

impl Default for Document {
    fn default() -> (r: Document)
        ensures
            r.id@.len() == 0,
            r.text@.len() == 0,
            r.created == 0,
            r.modified == 0,
    {
        Document { id: String::new(), text: String::new(), created: 0, modified: 0 }
    }
}

impl Document {
    /// A document with a fresh random id, created and modified now.
    pub fn new(text: &str) -> (r: Document)
        ensures
            r.id@.len() == DOCUMENT_ID_LEN,
            forall|k: int| 0 <= k < r.id@.len() ==> is_alphanumeric(#[trigger] r.id@[k]),
            r.text@ == text@,
            r.created == r.modified,
    {
        let now = now_timestamp();
        Document { id: Document::generate_id(), text: text.to_string(), created: now, modified: now }
    }

    /// A random id of [`DOCUMENT_ID_LEN`] ASCII letters and digits.
    pub fn generate_id() -> (r: String)
        ensures
            r@.len() == DOCUMENT_ID_LEN,
            forall|k: int| 0 <= k < r@.len() ==> is_alphanumeric(#[trigger] r@[k]),
    {
        let mut chars: Vec<char> = Vec::new();
        while chars.len() < DOCUMENT_ID_LEN
            invariant
                chars@.len() <= DOCUMENT_ID_LEN,
                forall|k: int| 0 <= k < chars@.len() ==> is_alphanumeric(#[trigger] chars@[k]),
            decreases DOCUMENT_ID_LEN - chars@.len(),
        {
            chars.push(random_alphanumeric());
        }
        string_of(&chars)
    }

    /// The id of the document.
    pub fn get_id(&self) -> (r: &str)
        ensures
            r@ == self.id@,
    {
        self.id.as_str()
    }

    /// The text of the document.
    pub fn get_content(&self) -> (r: &str)
        ensures
            r@ == self.text@,
    {
        self.text.as_str()
    }
}

impl Documentable for Document {
    fn id(&self) -> &str {
        self.id.as_str()
    }

    fn text(&self) -> &str {
        self.text.as_str()
    }

    fn created(&self) -> i64 {
        self.created
    }

    fn modified(&self) -> i64 {
        self.modified
    }

    fn set_id(&mut self, id: String) {
        self.id = id;
    }

    fn set_text(&mut self, text: String) {
        self.text = text;
    }

    fn set_created(&mut self, created: i64) {
        self.created = created;
    }

    fn set_modified(&mut self, modified: i64) {
        self.modified = modified;
    }
}

/// The document that row `k` of the columns describes.
pub open spec fn row_document(
    ids: Seq<String>,
    texts: Seq<String>,
    created: Seq<i64>,
    modified: Seq<i64>,
    k: int,
    d: Document,
) -> bool {
    d.id@ == ids[k]@ && d.text@ == texts[k]@ && d.created == created[k] && d.modified == modified[k]
}

/// The documents that the columns of a result batch of the vector index
/// describe, one per row, in row order.
pub fn documents_from_columns(
    ids: &Vec<String>,
    texts: &Vec<String>,
    created: &Vec<i64>,
    modified: &Vec<i64>,
) -> (r: Vec<Document>)
    requires
        texts@.len() == ids@.len(),
        created@.len() == ids@.len(),
        modified@.len() == ids@.len(),
    ensures
        r@.len() == ids@.len(),
        forall|k: int| 0 <= k < ids@.len() ==> row_document(ids@, texts@, created@, modified@, k, #[trigger] r@[k]),
{
    let mut docs: Vec<Document> = Vec::new();
    let mut i: usize = 0;
    while i < ids.len()
        invariant
            0 <= i <= ids@.len(),
            texts@.len() == ids@.len(),
            created@.len() == ids@.len(),
            modified@.len() == ids@.len(),
            docs@.len() == i,
            forall|k: int| 0 <= k < i ==> row_document(ids@, texts@, created@, modified@, k, #[trigger] docs@[k]),
        decreases ids@.len() - i,
    {
        let mut doc = Document::default();
        doc.id = ids[i].clone();
        doc.text = texts[i].clone();
        doc.created = created[i];
        doc.modified = modified[i];
        docs.push(doc);
        i = i + 1;
    }
    docs
}

/// As [`documents_from_columns`], each document paired with the distance of
/// its row.
pub fn documents_with_distances(
    ids: &Vec<String>,
    texts: &Vec<String>,
    distances: &Vec<Distance>,
    created: &Vec<i64>,
    modified: &Vec<i64>,
) -> (r: Vec<(Document, Distance)>)
    requires
        texts@.len() == ids@.len(),
        distances@.len() == ids@.len(),
        created@.len() == ids@.len(),
        modified@.len() == ids@.len(),
    ensures
        r@.len() == ids@.len(),
        forall|k: int| 0 <= k < ids@.len() ==> row_document(ids@, texts@, created@, modified@, k, (#[trigger] r@[k]).0)
            && r@[k].1 == distances@[k],
{
    let docs = documents_from_columns(ids, texts, created, modified);
    let mut out: Vec<(Document, Distance)> = Vec::new();
    let mut i: usize = 0;
    while i < docs.len()
        invariant
            0 <= i <= docs@.len(),
            docs@.len() == ids@.len(),
            distances@.len() == ids@.len(),
            forall|k: int| 0 <= k < ids@.len() ==> row_document(ids@, texts@, created@, modified@, k, #[trigger] docs@[k]),
            out@.len() == i,
            forall|k: int| 0 <= k < i ==> (#[trigger] out@[k]).0 == docs@[k] && out@[k].1 == distances@[k],
        decreases docs@.len() - i,
    {
        let d = Document {
            id: docs[i].id.clone(),
            text: docs[i].text.clone(),
            created: docs[i].created,
            modified: docs[i].modified,
        };
        out.push((d, distances[i]));
        i = i + 1;
    }
    assert forall|k: int| 0 <= k < ids@.len() implies row_document(ids@, texts@, created@, modified@, k, (#[trigger] out@[k]).0)
        && out@[k].1 == distances@[k] by {
        assert(row_document(ids@, texts@, created@, modified@, k, docs@[k]));
    }
    out
}

} // verus!
