//! Citations: where a piece of evidence came from.
use vstd::prelude::*;

use crate::utils::copy::copy_string;

verus! {

/// The document title, section heading and chunk id of a piece of evidence,
/// with a short excerpt of it.
pub struct Citation {
    pub document_title: String,
    pub section_heading: String,
    pub chunk_id: String,
    pub excerpt: String,
}

pub struct CitationView {
    pub document_title: Seq<char>,
    pub section_heading: Seq<char>,
    pub chunk_id: Seq<char>,
    pub excerpt: Seq<char>,
}

impl View for Citation {
    type V = CitationView;

    open spec fn view(&self) -> CitationView {
        CitationView {
            document_title: self.document_title@,
            section_heading: self.section_heading@,
            chunk_id: self.chunk_id@,
            excerpt: self.excerpt@,
        }
    }
}

impl Clone for Citation {
    fn clone(&self) -> (r: Self)
        ensures
            r@ == self@,
    {
        Citation {
            document_title: copy_string(&self.document_title),
            section_heading: copy_string(&self.section_heading),
            chunk_id: copy_string(&self.chunk_id),
            excerpt: copy_string(&self.excerpt),
        }
    }
}

} // verus!
