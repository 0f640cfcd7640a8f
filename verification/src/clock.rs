//! Readings of the system clocks, which nothing here can predict: each is
//! taken by one call into std, and nothing is stated of the values.

use vstd::prelude::*;
use std::time::{Duration, Instant, SystemTime};

verus! {

/// A point in time as std measures it; opaque here.
#[verifier::external_type_specification]
#[verifier::external_body]
pub struct ExInstant(Instant);

/// A wall-clock time as std measures it; opaque here.
#[verifier::external_type_specification]
#[verifier::external_body]
pub struct ExSystemTime(SystemTime);

/// Calls `Instant::now`. Nothing is known of the value.
#[verifier::external_body]
pub(crate) fn instant_now() -> Instant {
    Instant::now()
}

/// Calls `Instant::elapsed`: the time since `start`, which depends on the
/// clock; nothing is stated of it.
#[verifier::external_body]
pub(crate) fn instant_elapsed(start: &Instant) -> Duration {
    start.elapsed()
}

/// Calls `Instant::duration_since`: the time from `earlier` to `later`,
/// zero where `later` is not later. It depends on the clock readings;
/// nothing is stated of it.
#[verifier::external_body]
pub(crate) fn duration_since(later: &Instant, earlier: &Instant) -> Duration {
    later.duration_since(*earlier)
}

/// Compares two instants with `<`; the answer depends on the clock readings.
#[verifier::external_body]
pub(crate) fn instant_before(a: &Instant, b: &Instant) -> bool {
    a < b
}

/// Calls `SystemTime::elapsed`: the time since `t`, none where the clock
/// now reads earlier. It depends on the clock; nothing is stated of it.
#[verifier::external_body]
pub(crate) fn system_elapsed(t: &SystemTime) -> Option<Duration> {
    t.elapsed().ok()
}

/// Calls `SystemTime::now`. Nothing is known of the value.
#[verifier::external_body]
pub(crate) fn system_now() -> SystemTime {
    SystemTime::now()
}

} // verus!
