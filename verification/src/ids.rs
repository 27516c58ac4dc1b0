//! Fresh record identifiers, drawn from the system's random source.

use vstd::prelude::*;

verus! {

/// Relies on uuid's `Uuid::new_v4` and its `Display` impl: a version-4
/// identifier rendered in the hyphenated form, which is always 36
/// characters. The identifier itself is random, so nothing more is
/// promised of the text.
#[verifier::external_body]
pub fn fresh_id() -> (r: String)
    ensures
        r@.len() == 36,
{
    uuid::Uuid::new_v4().to_string()
}

} // verus!
