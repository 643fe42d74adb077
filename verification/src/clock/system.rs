//! The system clock and spans of time, as the standard library has them.

use std::time::{Duration, SystemTime, SystemTimeError};
use vstd::prelude::*;

verus! {

#[verifier::external_type_specification]
#[verifier::external_body]
pub struct ExSystemTime(SystemTime);

#[verifier::external_type_specification]
#[verifier::external_body]
pub struct ExSystemTimeError(SystemTimeError);

/// What `Duration::from_nanos` makes of a number of nanoseconds.
pub uninterp spec fn duration_of_nanos(nanos: u64) -> Duration;

/// What `Duration::as_nanos` counts in a span of time.
pub uninterp spec fn nanos_of_duration(duration: Duration) -> u128;

/// `Duration::from_nanos` makes a span of time out of a number of nanoseconds.
pub assume_specification[ Duration::from_nanos ](nanos: u64) -> (duration: Duration)
    ensures
        duration == duration_of_nanos(nanos),
;

/// `Duration::as_nanos` counts the nanoseconds of a span of time: those that it was made of,
/// and never more than a `u64` of seconds and a last fraction of a second.
pub assume_specification[ Duration::as_nanos ](duration: &Duration) -> (nanos: u128)
    ensures
        nanos == nanos_of_duration(*duration),
        nanos < 0x1_0000_0000_0000_0000 * 1_000_000_000,
        forall|n: u64| *duration == #[trigger] duration_of_nanos(n) ==> nanos == n,
;

/// `SystemTime::now` reads the system clock. Nothing is known of what it shows.
pub assume_specification[ SystemTime::now ]() -> (now: SystemTime)
;

/// `SystemTime::duration_since` is the span from an earlier time to this one, or an error
/// where this one is the earlier. Nothing is known of which of the two a clock gives.
pub assume_specification[ SystemTime::duration_since ](
    time: &SystemTime,
    earlier: SystemTime,
) -> (span: Result<Duration, SystemTimeError>)
;

/// `std::time::UNIX_EPOCH`: 1970-01-01 00:00:00 UTC on the system clock.
#[verifier::external_body]
pub(crate) fn unix_epoch() -> (epoch: SystemTime) {
    std::time::UNIX_EPOCH
}

} // verus!
