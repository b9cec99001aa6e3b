//! Documents of the knowledge library.
use vstd::prelude::*;
use crate::knowledge::metadata::DocumentMetadata;

verus! {

/// A knowledge artifact: a loaded file with its metadata and content.
#[derive(Clone, Debug)]
pub struct Document {
    id: String,
    path: String,
    title: String,
    language: String,
    tags: Vec<String>,
    source: String,
    metadata: DocumentMetadata,
    content: String,
}

/// The parts of a [`Document`].
pub struct DocumentView {
    pub id: Seq<char>,
    pub path: Seq<char>,
    pub title: Seq<char>,
    pub language: Seq<char>,
    pub tags: Seq<String>,
    pub source: Seq<char>,
    pub metadata: DocumentMetadata,
    pub content: Seq<char>,
}

impl View for Document {
    type V = DocumentView;

    closed spec fn view(&self) -> DocumentView {
        DocumentView {
            id: self.id@,
            path: self.path@,
            title: self.title@,
            language: self.language@,
            tags: self.tags@,
            source: self.source@,
            metadata: self.metadata,
            content: self.content@,
        }
    }
}

impl Document {
    /// A document with the given parts.
    pub fn new(
        id: String,
        path: String,
        title: String,
        language: String,
        tags: Vec<String>,
        source: String,
        metadata: DocumentMetadata,
        content: String,
    ) -> (r: Self)
        ensures
            r@ == (DocumentView {
                id: id@,
                path: path@,
                title: title@,
                language: language@,
                tags: tags@,
                source: source@,
                metadata,
                content: content@,
            }),
    {
        Document { id, path, title, language, tags, source, metadata, content }
    }

    /// The document's identifier.
    pub fn id(&self) -> (r: &str)
        ensures
            r@ == self@.id,
    {
        self.id.as_str()
    }

    /// Where the document was loaded from.
    pub fn path(&self) -> (r: &str)
        ensures
            r@ == self@.path,
    {
        self.path.as_str()
    }

    /// The document's title.
    pub fn title(&self) -> (r: &str)
        ensures
            r@ == self@.title,
    {
        self.title.as_str()
    }

    /// The document's language.
    pub fn language(&self) -> (r: &str)
        ensures
            r@ == self@.language,
    {
        self.language.as_str()
    }

    /// The document's tags.
    pub fn tags(&self) -> (r: &[String])
        ensures
            r@ == self@.tags,
    {
        self.tags.as_slice()
    }

    /// Where the document comes from.
    pub fn source(&self) -> (r: &str)
        ensures
            r@ == self@.source,
    {
        self.source.as_str()
    }

    /// The document's metadata.
    pub fn metadata(&self) -> (r: &DocumentMetadata)
        ensures
            *r == self@.metadata,
    {
        &self.metadata
    }

    /// The document's content.
    pub fn content(&self) -> (r: &str)
        ensures
            r@ == self@.content,
    {
        self.content.as_str()
    }
}

} // verus!
