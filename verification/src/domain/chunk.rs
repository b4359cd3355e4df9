//! Chunks: the retrieval units, each linked to its parent section.
use vstd::prelude::*;

use crate::utils::copy::{copy_string, copy_strings};

verus! {

/// A retrieval window of a section's text.
pub struct Chunk {
    pub id: String,
    pub document_id: String,
    pub section_id: String,
    pub ordinal: usize,
    pub text: String,
    pub token_count: usize,
    pub keywords: Vec<String>,
}

pub struct ChunkView {
    pub id: Seq<char>,
    pub document_id: Seq<char>,
    pub section_id: Seq<char>,
    pub ordinal: usize,
    pub text: Seq<char>,
    pub token_count: usize,
    pub keywords: Seq<Seq<char>>,
}

impl View for Chunk {
    type V = ChunkView;

    open spec fn view(&self) -> ChunkView {
        ChunkView {
            id: self.id@,
            document_id: self.document_id@,
            section_id: self.section_id@,
            ordinal: self.ordinal,
            text: self.text@,
            token_count: self.token_count,
            keywords: self.keywords.deep_view(),
        }
    }
}

impl Clone for Chunk {
    fn clone(&self) -> (r: Self)
        ensures
            r@ == self@,
    {
        Chunk {
            id: copy_string(&self.id),
            document_id: copy_string(&self.document_id),
            section_id: copy_string(&self.section_id),
            ordinal: self.ordinal,
            text: copy_string(&self.text),
            token_count: self.token_count,
            keywords: copy_strings(&self.keywords),
        }
    }
}

} // verus!
