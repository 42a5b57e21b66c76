use vstd::prelude::*;

verus! {

/// Relies on chrono::Utc::now, read through DateTime::timestamp_millis:
/// the milliseconds since the Unix epoch on the system clock. Nothing is
/// promised of the value; every caller must be correct for any reading.
#[verifier::external_body]
pub(crate) fn now_millis() -> i64 {
    chrono::Utc::now().timestamp_millis()
}

} // verus!
