//! Trusted access to the process's monotonic clock, for the duration
//! counters the actor keeps. Nothing is promised about the values: every
//! caller states what it does for any elapsed time.

use vstd::prelude::*;

verus! {

#[verifier::external_type_specification]
#[verifier::external_body]
pub struct ExInstant(std::time::Instant);

/// Relies on std's `Instant::now`: an opaque point of the monotonic
/// clock.
#[verifier::external_body]
pub fn instant_now() -> (r: std::time::Instant) {
    std::time::Instant::now()
}

/// Relies on std's `Instant::elapsed`: the nanoseconds since `start`,
/// truncated to 64 bits. The value depends on the clock; nothing is
/// promised about it.
#[verifier::external_body]
pub fn elapsed_nanos(start: &std::time::Instant) -> (r: u64) {
    start.elapsed().as_nanos() as u64
}

} // verus!
