//! The scheduler's two environment inputs: the current time and fresh ids.
//! Both are trusted wrappers; callers state what holds of every outcome.

use vstd::prelude::*;

verus! {

/// Relies on chrono::Utc::now().timestamp_millis(): the current time in
/// milliseconds since the epoch, whatever the clock says.
#[verifier::external_body]
pub(crate) fn now_millis() -> i64 {
    chrono::Utc::now().timestamp_millis()
}

/// Relies on uuid::Uuid::new_v4 and its hyphenated text form, which is
/// documented as 36 characters; the value is random, so nothing more is
/// promised.
#[verifier::external_body]
pub(crate) fn fresh_id() -> (r: String)
    ensures
        r@.len() == 36,
{
    uuid::Uuid::new_v4().to_string()
}

} // verus!
