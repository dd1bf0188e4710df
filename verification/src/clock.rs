//! Reading the clock, and spans of time as plain numbers.

use std::time::{Duration, Instant};
use vstd::prelude::*;

verus! {

/// `std::time::Instant`, a moment, as a value that is only passed on.
#[verifier::external_type_specification]
#[verifier::external_body]
pub struct ExInstant(Instant);

/// The whole nanoseconds that a span of time holds.
pub uninterp spec fn duration_nanos(duration: Duration) -> nat;

/// Calls `std::time::Duration::as_nanos`: the whole nanoseconds of the span.
#[verifier::external_body]
pub(crate) fn nanos_of(duration: &Duration) -> (nanos: u128)
    ensures
        nanos == duration_nanos(*duration),
{
    duration.as_nanos()
}

/// Calls `std::time::Duration::from_secs`: the span of that many whole
/// seconds.
#[verifier::external_body]
pub(crate) fn seconds(secs: u64) -> (duration: Duration)
    ensures
        duration_nanos(duration) == secs * 1_000_000_000,
{
    Duration::from_secs(secs)
}

/// Calls `std::time::Instant::now`: the present moment, of which nothing is
/// known beforehand.
#[verifier::external_body]
pub(crate) fn now() -> Instant {
    Instant::now()
}

/// Calls `std::time::Instant::elapsed`: the time that has passed since the
/// moment, of which nothing is known beforehand.
#[verifier::external_body]
pub(crate) fn elapsed_since(moment: &Instant) -> Duration {
    moment.elapsed()
}

} // verus!
