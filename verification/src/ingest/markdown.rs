//! Markdown ingest: the raw text, so that `#` headings reach the parser.
use vstd::prelude::*;

use crate::error::AppError;
use crate::ingest::text::{spec_utf8_lossy, utf8_lossy};

verus! {

/// Markdown keeps its raw text: the bytes decoded as UTF-8; valid UTF-8
/// gives exactly its characters (see `lemma_utf8_round_trip`).
pub fn extract_text(bytes: &[u8]) -> (r: Result<String, AppError>)
    ensures
        r matches Ok(t) && t@ == spec_utf8_lossy(bytes@),
        vstd::utf8::valid_utf8(bytes@) ==> (r matches Ok(t) && t@ == vstd::utf8::decode_utf8(bytes@)),
{
    Ok(utf8_lossy(bytes))
}

} // verus!
