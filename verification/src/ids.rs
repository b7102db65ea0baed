//! Identifiers for records, categories and saved searches.

use vstd::prelude::*;

verus! {

/// Length of an identifier in its hyphenated form.
pub const ID_LENGTH: usize = 36;

/// Draws a random identifier with `uuid::Uuid::new_v4` and writes it in the
/// hyphenated lower-case form, which always has 36 characters.
#[verifier::external_body]
pub(crate) fn fresh_id() -> (id: String)
    ensures
        id@.len() == ID_LENGTH,
{
    uuid::Uuid::new_v4().to_string()
}

} // verus!
