//! Durations, read by their length in nanoseconds.
use vstd::prelude::*;
use std::time::{Duration, Instant};

verus! {

/// The total number of nanoseconds of a duration (what `Duration::as_nanos` returns).
pub uninterp spec fn duration_nanos(d: Duration) -> nat;

/// The length of a duration in whole milliseconds.
pub open spec fn spec_duration_millis(d: Duration) -> nat {
    duration_nanos(d) / 1_000_000
}

/// `Duration::from_secs` makes a duration of `secs` whole seconds.
pub assume_specification[ core::time::Duration::from_secs ](secs: u64) -> (d: Duration)
    ensures
        duration_nanos(d) == secs * 1_000_000_000,
;

/// `Duration::from_millis` makes a duration of `millis` milliseconds.
pub assume_specification[ core::time::Duration::from_millis ](millis: u64) -> (d: Duration)
    ensures
        duration_nanos(d) == millis * 1_000_000,
;

/// `Duration::from_nanos` makes a duration of `nanos` nanoseconds.
pub assume_specification[ core::time::Duration::from_nanos ](nanos: u64) -> (d: Duration)
    ensures
        duration_nanos(d) == nanos,
;

/// `Duration::new` makes a duration of `secs` seconds and `nanos`
/// nanoseconds; it panics when carrying whole seconds out of `nanos`
/// overflows the seconds.
pub assume_specification[ core::time::Duration::new ](secs: u64, nanos: u32) -> (d: Duration)
    requires
        secs + nanos / 1_000_000_000 <= u64::MAX,
    ensures
        duration_nanos(d) == secs * 1_000_000_000 + nanos,
;

/// `Duration::as_nanos` returns the total number of nanoseconds of the duration.
pub assume_specification[ core::time::Duration::as_nanos ](d: &Duration) -> (n: u128)
    ensures
        n == duration_nanos(*d),
;

/// Cloning a duration gives the same duration.
pub assume_specification[ <core::time::Duration as core::clone::Clone>::clone ](d: &Duration) -> (r: Duration)
    ensures
        r == *d,
;

/// The length of a duration in whole milliseconds.
pub fn duration_as_millis(d: &Duration) -> (r: u128)
    ensures
        r == spec_duration_millis(*d),
{
    d.as_nanos() / 1_000_000
}

#[verifier::external_type_specification]
#[verifier::external_body]
pub struct ExInstant(std::time::Instant);

/// `Instant::now` reads the monotonic clock; nothing is promised of the reading.
pub assume_specification[ std::time::Instant::now ]() -> Instant;

/// `Instant::elapsed` reads the clock again and returns the time since the
/// instant; nothing is promised of it.
pub assume_specification[ std::time::Instant::elapsed ](i: &Instant) -> Duration;

/// Nanoseconds elapsed since `epoch` on the monotonic clock, as read now
/// (at most `u64::MAX`).
pub fn nanos_since(epoch: &Instant) -> u64 {
    let n = epoch.elapsed().as_nanos();
    if n > u64::MAX as u128 {
        u64::MAX
    } else {
        n as u64
    }
}

} // verus!
