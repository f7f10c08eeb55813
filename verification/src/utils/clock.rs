//! The present instant.

use vstd::prelude::*;

verus! {

/// Reads the system clock with `SystemTime::now`, converts the result with
/// chrono's `DateTime::<Utc>::from` and renders it with
/// `DateTime::timestamp_micros`: microseconds since the Unix epoch, negative
/// where the clock stands before it. Nothing is stated of the value.
#[verifier::external_body]
pub(crate) fn now() -> (at: i64) {
    chrono::DateTime::<chrono::Utc>::from(std::time::SystemTime::now()).timestamp_micros()
}

} // verus!
