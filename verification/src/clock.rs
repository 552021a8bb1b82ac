//! The wall clock, behind a trusted wrapper, for token expiry stamps.

use vstd::prelude::*;

verus! {

/// Relies on chrono::Utc::now: the current time as milliseconds since the
/// Unix epoch. Nothing can be promised of the clock's reading.
#[verifier::external_body]
pub fn now_millis() -> i64 {
    chrono::Utc::now().timestamp_millis()
}

} // verus!
