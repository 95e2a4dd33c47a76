//! Identifiers and timestamps for new records.
//!
//! Both come from outside crates and depend on chance or on the clock, so
//! their contracts state only what holds of every outcome.
use vstd::prelude::*;

verus! {

/// Calls `chrono::Utc::now()` and formats it with `to_rfc3339`. The result
/// depends on the clock; the contract claims only that the text is not empty,
/// which holds because chrono always writes the date and time fields.
#[verifier::external_body]
pub(crate) fn now_rfc3339() -> (s: String)
    ensures
        s@.len() > 0,
{
    chrono::Utc::now().to_rfc3339()
}

/// Calls `uuid::Uuid::new_v4()` and formats it with `to_string`. The result is
/// random; the contract claims only its length: uuid formats with the
/// hyphenated layout of 32 hex digits and 4 hyphens.
#[verifier::external_body]
pub(crate) fn new_uuid() -> (s: String)
    ensures
        s@.len() == 36,
{
    uuid::Uuid::new_v4().to_string()
}

} // verus!
