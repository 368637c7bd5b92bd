//! The monotonic clock by which a worker times its leases.
use vstd::prelude::*;
use std::time::{Duration, Instant};

verus! {

/// A point on the machine's monotonic clock.
#[verifier::external_type_specification]
#[verifier::external_body]
pub struct ExInstant(std::time::Instant);

/// A monotonic clock whose readings are nanoseconds counted from
/// `base_nanos` on.
pub struct MonotonicClock {
    pub origin: Instant,
    pub base_nanos: u64,
}

/// Reads the machine's monotonic clock.
///
/// Calls `std::time::Instant::now`. Nothing is claimed about the reading.
#[verifier::external_body]
fn instant_now() -> (now: Instant) {
    Instant::now()
}

/// The time passed since `origin`.
///
/// Calls `std::time::Instant::elapsed`. Nothing is claimed about the result.
#[verifier::external_body]
fn elapsed_since(origin: &Instant) -> (elapsed: Duration) {
    origin.elapsed()
}

/// The length of `duration` in whole nanoseconds.
///
/// Calls `std::time::Duration::as_nanos`. Nothing is claimed about the
/// result.
#[verifier::external_body]
fn whole_nanos(duration: &Duration) -> (nanos: u128) {
    duration.as_nanos()
}

/// The reading for `elapsed` nanoseconds on a clock that starts at `base`:
/// their sum, or the largest reading when the sum does not fit.
pub open spec fn reading(base: u64, elapsed: u128) -> u64 {
    if base + elapsed > u64::MAX {
        u64::MAX
    } else {
        (base + elapsed) as u64
    }
}

/// Computes [`reading`].
pub fn saturate_nanos(base: u64, elapsed: u128) -> (nanos: u64)
    ensures
        nanos == reading(base, elapsed),
{
    let room = u64::MAX - base;
    if elapsed > room as u128 {
        u64::MAX
    } else {
        base + elapsed as u64
    }
}

impl MonotonicClock {
    /// A clock that starts now, with `base_nanos` as its first reading.
    pub fn new(base_nanos: u64) -> (clock: MonotonicClock)
        ensures
            clock.base_nanos == base_nanos,
    {
        MonotonicClock { origin: instant_now(), base_nanos }
    }
}

/// The current reading of `clock`, in nanoseconds. No reading is below the
/// clock's first.
pub fn current_nano_time(clock: &MonotonicClock) -> (nanos: u64)
    ensures
        nanos >= clock.base_nanos,
{
    let elapsed = elapsed_since(&clock.origin);
    saturate_nanos(clock.base_nanos, whole_nanos(&elapsed))
}

} // verus!
