//! The entity the splitters read and produce: a text with metadata.

use vstd::prelude::*;

use crate::value::{MetaEntryV, Metadata};

verus! {

/// Mathematical model of a document: its characters and its metadata entries.
pub struct DocumentV {
    pub page_content: Seq<char>,
    pub metadata: Seq<MetaEntryV>,
}

/// A text payload together with the metadata inherited from its source.
#[derive(Debug, PartialEq, Eq)]
pub struct Document {
    pub page_content: String,
    pub metadata: Metadata,
}

impl DeepView for Document {
    type V = DocumentV;

    open spec fn deep_view(&self) -> DocumentV {
        DocumentV { page_content: self.page_content@, metadata: self.metadata.deep_view() }
    }
}

impl Document {
    /// A document holding `page_content` and no metadata.
    pub fn new(page_content: String) -> (d: Document)
        ensures
            d.deep_view() == (DocumentV {
                page_content: page_content@,
                metadata: Seq::<MetaEntryV>::empty(),
            }),
    {
        Document { page_content, metadata: Metadata::new() }
    }

    /// The same content carrying `metadata` instead of the present entries.
    pub fn with_metadata(self, metadata: Metadata) -> (d: Document)
        ensures
            d.deep_view() == (DocumentV {
                page_content: self.page_content@,
                metadata: metadata.deep_view(),
            }),
    {
        Document { page_content: self.page_content, metadata }
    }
}

impl Clone for Document {
    /// A clone denotes the same document.
    fn clone(&self) -> (res: Document)
        ensures
            res.deep_view() == self.deep_view(),
    {
        Document { page_content: self.page_content.clone(), metadata: self.metadata.clone() }
    }
}

} // verus!
