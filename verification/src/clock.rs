//! The clock: creation timestamps are milliseconds since the Unix epoch.

use vstd::prelude::*;

verus! {

/// Relies on chrono's `Utc::now` and `DateTime::timestamp_millis`: the
/// current time, in milliseconds since the Unix epoch. Nothing is assumed
/// of the reading; callers state what holds of every value.
#[verifier::external_body]
pub fn now_millis() -> (r: i64) {
    chrono::Utc::now().timestamp_millis()
}

} // verus!
