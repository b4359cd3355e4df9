//! Documents: one imported source file of a workspace.
use vstd::prelude::*;

use crate::domain::timestamp::Timestamp;
use crate::utils::copy::{copy_string, copy_strings};

verus! {

/// An imported source file: where it came from and where its copy is kept,
/// its media type, when it was imported, and the ids of its sections and
/// chunks.  Paths are held as strings.
pub struct Document {
    pub id: String,
    pub title: String,
    pub source_path: String,
    pub stored_path: String,
    pub media_type: String,
    pub imported_at: Timestamp,
    pub section_ids: Vec<String>,
    pub chunk_ids: Vec<String>,
}

pub struct DocumentView {
    pub id: Seq<char>,
    pub title: Seq<char>,
    pub source_path: Seq<char>,
    pub stored_path: Seq<char>,
    pub media_type: Seq<char>,
    pub imported_at: Timestamp,
    pub section_ids: Seq<Seq<char>>,
    pub chunk_ids: Seq<Seq<char>>,
}

impl View for Document {
    type V = DocumentView;

    open spec fn view(&self) -> DocumentView {
        DocumentView {
            id: self.id@,
            title: self.title@,
            source_path: self.source_path@,
            stored_path: self.stored_path@,
            media_type: self.media_type@,
            imported_at: self.imported_at,
            section_ids: self.section_ids.deep_view(),
            chunk_ids: self.chunk_ids.deep_view(),
        }
    }
}

impl Clone for Document {
    fn clone(&self) -> (r: Self)
        ensures
            r@ == self@,
    {
        Document {
            id: copy_string(&self.id),
            title: copy_string(&self.title),
            source_path: copy_string(&self.source_path),
            stored_path: copy_string(&self.stored_path),
            media_type: copy_string(&self.media_type),
            imported_at: self.imported_at,
            section_ids: copy_strings(&self.section_ids),
            chunk_ids: copy_strings(&self.chunk_ids),
        }
    }
}

} // verus!
