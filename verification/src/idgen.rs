//! Generation of task and list identifiers.
//!
//! An identifier is the 128-bit value of a ULID: the high 48 bits are a
//! millisecond timestamp, the low 80 bits random, so freshly generated ids
//! sort by creation time. The store never assumes freshness: every insert
//! checks the id against the rows it already holds.

use vstd::prelude::*;

verus! {

/// Relies on `ulid::Ulid::generate` to draw a fresh identifier. The result
/// depends on the clock and on randomness, so nothing is promised of it;
/// callers must hold for any value, and in particular must not assume the
/// id is unused.
#[verifier::external_body]
pub fn fresh_id() -> u128 {
    ulid::Ulid::generate().0
}

} // verus!
