//! The time source: a monotonic reference instant captured at middleware
//! construction, read back as nanoseconds since that instant. Wall-clock time
//! is never used, and no contract can pin a clock reading down.

use vstd::prelude::*;

verus! {

#[verifier::external_type_specification]
#[verifier::external_body]
pub struct ExInstant(std::time::Instant);

/// Relies on std::time::Instant::now: a reference point on the monotonic
/// clock.
#[verifier::external_body]
pub(crate) fn instant_now() -> (t: std::time::Instant) {
    std::time::Instant::now()
}

/// Relies on std::time::Instant::elapsed: the time since the reference point.
/// The clock is monotonic, but no particular value can be promised.
#[verifier::external_body]
pub(crate) fn instant_elapsed(start: &std::time::Instant) -> (d: core::time::Duration) {
    start.elapsed()
}

/// Relies on core::time::Duration::as_nanos: the whole duration as
/// nanoseconds.
#[verifier::external_body]
pub(crate) fn duration_as_nanos(d: &core::time::Duration) -> (n: u128) {
    d.as_nanos()
}

} // verus!
