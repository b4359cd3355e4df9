//! Fresh identifiers.
use vstd::prelude::*;

verus! {

/// Calls `uuid::Uuid::new_v4` and formats the id with `to_string`, which writes
/// the hyphenated lower-case form: 36 characters.  The id is random, so
/// nothing else is claimed of it.
#[verifier::external_body]
pub(crate) fn new_id() -> (r: String)
    ensures
        r@.len() == 36,
{
    uuid::Uuid::new_v4().to_string()
}

} // verus!
