//! The two nondeterministic ingredients of a capture: a fresh identifier
//! and the creation timestamp. Both come from outside crates; nothing is
//! assumed of them beyond what their documentation states, and the store
//! checks the drawn id against its contents rather than trusting it fresh.

use vstd::prelude::*;

verus! {

/// Relies on uuid::Uuid::new_v4 and its Display form: a random version-4
/// UUID rendered in the canonical hyphenated form, which is 36 characters.
/// The value is random; no two calls are assumed to agree or differ.
#[verifier::external_body]
pub(crate) fn new_note_id() -> (r: String)
    ensures
        r@.len() == 36,
{
    uuid::Uuid::new_v4().to_string()
}

/// Relies on chrono::Utc::now and DateTime::to_rfc3339: the current time
/// rendered in RFC 3339 form, which is never the empty string. The value
/// depends on the clock, so nothing more is assumed of it.
#[verifier::external_body]
pub(crate) fn now_rfc3339() -> (r: String)
    ensures
        r@.len() > 0,
{
    chrono::Utc::now().to_rfc3339()
}

} // verus!
