//! The clocks: the monotonic instant, the wall time, and the durations
//! between them. Nothing is stated of what a clock reads; what the
//! arithmetic on times and durations gives is named.

use vstd::prelude::*;
use std::time::{Duration, Instant, SystemTime};

verus! {

#[verifier::external_type_specification]
#[verifier::external_body]
pub struct ExInstant(std::time::Instant);

#[verifier::external_type_specification]
#[verifier::external_body]
pub struct ExSystemTime(std::time::SystemTime);

/// Calls `Instant::now`: the current instant of the monotonic clock.
/// Nothing is stated of its value.
#[verifier::external_body]
pub(crate) fn instant_now() -> (r: Instant) {
    Instant::now()
}

/// Calls `Instant::elapsed`: the time since `start` on the monotonic
/// clock. Nothing is stated of its value.
#[verifier::external_body]
pub(crate) fn instant_elapsed(start: &Instant) -> (r: Duration) {
    start.elapsed()
}

/// Calls `SystemTime::now`: the wall time. Nothing is stated of its value.
#[verifier::external_body]
pub(crate) fn system_now() -> (r: SystemTime) {
    SystemTime::now()
}

/// Gives `std::time::UNIX_EPOCH`, the wall time of the Unix epoch.
#[verifier::external_body]
pub(crate) fn unix_epoch() -> (r: SystemTime) {
    std::time::UNIX_EPOCH
}

/// What `SystemTime::duration_since` gives, kept as an `Option`: the time
/// from `start` to `end`, or `None` where `end` is earlier.
pub uninterp spec fn duration_since(end: SystemTime, start: SystemTime) -> Option<Duration>;

/// What `Duration::as_nanos` gives: the whole nanoseconds of a duration.
pub uninterp spec fn dur_nanos(d: Duration) -> u128;

/// What `Duration::from_secs` gives: a duration of whole seconds.
pub uninterp spec fn secs_duration(secs: u64) -> Duration;

/// Calls `SystemTime::duration_since` and keeps its `Ok` value. The result
/// depends on the two times alone; it is named `duration_since`.
#[verifier::external_body]
pub(crate) fn elapsed_between(end: &SystemTime, start: &SystemTime) -> (r: Option<Duration>)
    ensures
        r == duration_since(*end, *start),
{
    end.duration_since(*start).ok()
}

/// Calls `Duration::as_nanos`: the whole nanoseconds of `d`, named
/// `dur_nanos`.
#[verifier::external_body]
pub(crate) fn nanos_of(d: &Duration) -> (r: u128)
    ensures
        r == dur_nanos(*d),
{
    d.as_nanos()
}

/// Calls `Duration::from_secs`: a duration of `secs` seconds, named
/// `secs_duration`.
#[verifier::external_body]
pub(crate) fn duration_from_secs(secs: u64) -> (r: Duration)
    ensures
        r == secs_duration(secs),
{
    Duration::from_secs(secs)
}

} // verus!
