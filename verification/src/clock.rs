//! Access to the machine clock. Every reading depends on when it is made,
//! so none of these items promises anything about the value it returns.

use std::time::{Duration, Instant, SystemTime};
use vstd::prelude::*;

verus! {

/// A point on the monotonic clock (`std::time::Instant`), carried opaquely.
#[verifier::external_type_specification]
#[verifier::external_body]
pub struct ExInstant(Instant);

/// A wall-clock time (`std::time::SystemTime`), carried opaquely.
#[verifier::external_type_specification]
#[verifier::external_body]
pub struct ExSystemTime(SystemTime);

/// `Duration` is `Copy`: its `clone` returns an equal value.
pub assume_specification[ <Duration as Clone>::clone ](d: &Duration) -> (c: Duration)
    ensures
        c == *d,
;

/// `SystemTime` is `Copy`: its `clone` returns an equal value.
pub assume_specification[ <SystemTime as Clone>::clone ](t: &SystemTime) -> (c: SystemTime)
    ensures
        c == *t,
;

/// The length of a duration in nanoseconds: what `Duration::as_nanos`
/// returns.
pub uninterp spec fn duration_nanos(d: Duration) -> nat;

/// Calls `Instant::now`. The reading depends on the time of the call:
/// nothing is claimed about it.
#[verifier::external_body]
pub(crate) fn instant_now() -> (now: Instant) {
    Instant::now()
}

/// Calls `SystemTime::now`. The reading depends on the time of the call:
/// nothing is claimed about it.
#[verifier::external_body]
pub(crate) fn system_now() -> (now: SystemTime) {
    SystemTime::now()
}

/// What `later.duration_since(earlier)` returns: the time from `earlier`
/// to `later` (zero when `later` is not after `earlier`).
pub uninterp spec fn instant_gap(later: Instant, earlier: Instant) -> Duration;

/// Calls `Instant::duration_since`; the result is the value named
/// `instant_gap(later, earlier)`, which depends on the two instants alone.
#[verifier::external_body]
pub(crate) fn duration_between(later: &Instant, earlier: &Instant) -> (d: Duration)
    ensures
        d == instant_gap(*later, *earlier),
{
    later.duration_since(*earlier)
}

/// Calls `Duration::from_millis`: a duration of `ms` milliseconds, that is
/// `ms * 1_000_000` nanoseconds.
#[verifier::external_body]
pub(crate) fn duration_from_millis(ms: u64) -> (d: Duration)
    ensures
        duration_nanos(d) == ms * 1_000_000,
{
    Duration::from_millis(ms)
}

/// Calls `Duration::as_millis`: the number of whole milliseconds in `d`.
#[verifier::external_body]
pub(crate) fn duration_millis(d: &Duration) -> (ms: u128)
    ensures
        ms == duration_nanos(*d) / 1_000_000,
{
    d.as_millis()
}

/// Calls `Duration`'s `>`: whether `a` is longer than `b`.
#[verifier::external_body]
pub(crate) fn duration_longer(a: &Duration, b: &Duration) -> (longer: bool)
    ensures
        longer == (duration_nanos(*a) > duration_nanos(*b)),
{
    *a > *b
}

} // verus!
