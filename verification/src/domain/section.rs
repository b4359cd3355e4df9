//! Sections: the author-facing structure of a document, used as citation anchors.
use vstd::prelude::*;

use crate::utils::copy::{copy_opt_string, copy_string, copy_strings, copy_usizes, opt_view};

verus! {

/// A section of a document: its heading, nesting level and ordinal path, the
/// id of the enclosing section, its text and the ids of its chunks.
pub struct Section {
    pub id: String,
    pub document_id: String,
    pub heading: String,
    pub level: usize,
    pub ordinal_path: Vec<usize>,
    pub parent_id: Option<String>,
    pub content: String,
    pub chunk_ids: Vec<String>,
}

/// The mathematical value of a section.
pub struct SectionView {
    pub id: Seq<char>,
    pub document_id: Seq<char>,
    pub heading: Seq<char>,
    pub level: usize,
    pub ordinal_path: Seq<usize>,
    pub parent_id: Option<Seq<char>>,
    pub content: Seq<char>,
    pub chunk_ids: Seq<Seq<char>>,
}

impl View for Section {
    type V = SectionView;

    open spec fn view(&self) -> SectionView {
        SectionView {
            id: self.id@,
            document_id: self.document_id@,
            heading: self.heading@,
            level: self.level,
            ordinal_path: self.ordinal_path@,
            parent_id: opt_view(self.parent_id),
            content: self.content@,
            chunk_ids: self.chunk_ids.deep_view(),
        }
    }
}

impl Clone for Section {
    fn clone(&self) -> (r: Self)
        ensures
            r@ == self@,
    {
        Section {
            id: copy_string(&self.id),
            document_id: copy_string(&self.document_id),
            heading: copy_string(&self.heading),
            level: self.level,
            ordinal_path: copy_usizes(&self.ordinal_path),
            parent_id: copy_opt_string(&self.parent_id),
            content: copy_string(&self.content),
            chunk_ids: copy_strings(&self.chunk_ids),
        }
    }
}

} // verus!
