//! A single wall-clock read, used once per block construction.

use vstd::prelude::*;

verus! {

/// Relies on `time::OffsetDateTime::now_utc` and `unix_timestamp`: reads the
/// wall clock once and returns the seconds since the Unix epoch, reinterpreted
/// as an unsigned 64-bit value (the same two's-complement bytes). Nothing is
/// promised of the result: it depends on the clock.
#[verifier::external_body]
pub(crate) fn now_unix_seconds() -> u64 {
    time::OffsetDateTime::now_utc().unix_timestamp() as u64
}

} // verus!
