//! The wall clock. Timestamps are milliseconds since the Unix epoch.

use vstd::prelude::*;

verus! {

/// Relies on `chrono::Utc::now` for the current wall-clock time, read as
/// milliseconds since the Unix epoch. Nothing is promised of the value:
/// every caller must hold for any timestamp the clock may hand back.
#[verifier::external_body]
pub fn now_millis() -> i64 {
    chrono::Utc::now().timestamp_millis()
}

} // verus!
