//! Wall-clock and identifier sources.

use vstd::prelude::*;

verus! {

/// Relies on chrono::Utc::now and DateTime::timestamp_micros: the current
/// wall-clock instant in microseconds since the Unix epoch. Nothing is
/// promised of the value.
#[verifier::external_body]
pub fn now_micros() -> (r: i64) {
    chrono::Utc::now().timestamp_micros()
}

/// Relies on uuid::Uuid::new_v4 and Uuid::as_u128: a fresh random 128-bit
/// identifier. Nothing is promised of the value.
#[verifier::external_body]
pub fn fresh_id() -> (r: u128) {
    uuid::Uuid::new_v4().as_u128()
}

} // verus!
