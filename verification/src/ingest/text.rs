//! Plain-text ingest: the file's bytes decoded as UTF-8.
use vstd::prelude::*;

use crate::error::AppError;

verus! {

/// What `String::from_utf8_lossy` decodes from the bytes.
pub uninterp spec fn spec_utf8_lossy(bytes: Seq<u8>) -> Seq<char>;

/// Calls `String::from_utf8_lossy`.  The text is named by `spec_utf8_lossy`;
/// the documented part is stated: valid UTF-8 decodes to its characters.  How
/// invalid sequences are replaced is left to the name.
#[verifier::external_body]
pub(crate) fn utf8_lossy(bytes: &[u8]) -> (r: String)
    ensures
        r@ == spec_utf8_lossy(bytes@),
        vstd::utf8::valid_utf8(bytes@) ==> r@ == vstd::utf8::decode_utf8(bytes@),
{
    String::from_utf8_lossy(bytes).into_owned()
}

/// Plain text is already the normalized form: its bytes decoded as UTF-8;
/// valid UTF-8 gives exactly its characters.
pub fn extract_text(bytes: &[u8]) -> (r: Result<String, AppError>)
    ensures
        r matches Ok(t) && t@ == spec_utf8_lossy(bytes@),
        vstd::utf8::valid_utf8(bytes@) ==> (r matches Ok(t) && t@ == vstd::utf8::decode_utf8(bytes@)),
{
    Ok(utf8_lossy(bytes))
}

/// A text's UTF-8 bytes are valid and decode to the text: with the contracts
/// of `extract_text` (plain text and Markdown), reading a file written from a
/// string gives that string back, `#` heading markers included.
pub proof fn lemma_utf8_round_trip(s: Seq<char>)
    ensures
        vstd::utf8::valid_utf8(vstd::utf8::encode_utf8(s)),
        vstd::utf8::decode_utf8(vstd::utf8::encode_utf8(s)) == s,
{
    vstd::utf8::encode_utf8_valid_utf8(s);
    vstd::utf8::encode_utf8_decode_utf8(s);
}

} // verus!
