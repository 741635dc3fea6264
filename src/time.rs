//! Monotonic time as plain nanosecond counts. Time enters the state
//! machines only through arguments.

use vstd::prelude::*;

verus! {

/// A span of time in nanoseconds.
#[derive(Debug, Clone, Copy, PartialEq, Eq, Structural, Hash)]
pub struct Duration {
    pub nanos: u64,
}

/// A point on a monotonic clock, in nanoseconds since its origin.
#[derive(Debug, Clone, Copy, PartialEq, Eq, Structural, Hash)]
pub struct Instant {
    pub nanos: u64,
}

/// Nanoseconds in one second.
pub const NANOS_PER_SEC: u64 = 1_000_000_000;

/// Nanoseconds in one millisecond.
pub const NANOS_PER_MILLI: u64 = 1_000_000;

impl Duration {
    /// `secs` seconds.
    pub fn from_secs(secs: u64) -> (r: Duration)
        requires
            secs * NANOS_PER_SEC <= u64::MAX,
        ensures
            r.nanos == secs * NANOS_PER_SEC,
    {
        Duration { nanos: secs * NANOS_PER_SEC }
    }

    /// `millis` milliseconds.
    pub fn from_millis(millis: u64) -> (r: Duration)
        requires
            millis * NANOS_PER_MILLI <= u64::MAX,
        ensures
            r.nanos == millis * NANOS_PER_MILLI,
    {
        Duration { nanos: millis * NANOS_PER_MILLI }
    }

    /// `nanos` nanoseconds.
    pub fn from_nanos(nanos: u64) -> (r: Duration)
        ensures
            r.nanos == nanos,
    {
        Duration { nanos }
    }

    /// The length in nanoseconds.
    pub fn as_nanos(&self) -> (r: u64)
        ensures
            r == self.nanos,
    {
        self.nanos
    }
}

impl Instant {
    /// The instant `nanos` nanoseconds after the clock's origin.
    pub fn from_nanos(nanos: u64) -> (r: Instant)
        ensures
            r.nanos == nanos,
    {
        Instant { nanos }
    }

    /// The time elapsed from `earlier` to `self`, zero if `earlier` is later.
    pub fn duration_since(&self, earlier: Instant) -> (r: Duration)
        ensures
            r.nanos == elapsed(earlier, *self),
    {
        if self.nanos >= earlier.nanos {
            Duration { nanos: self.nanos - earlier.nanos }
        } else {
            Duration { nanos: 0 }
        }
    }

    /// The instant `d` after `self`.
    pub fn plus(&self, d: Duration) -> (r: Instant)
        requires
            self.nanos + d.nanos <= u64::MAX,
        ensures
            r.nanos == self.nanos + d.nanos,
    {
        Instant { nanos: self.nanos + d.nanos }
    }
}

/// Nanoseconds from `from` to `to`, saturating at zero.
pub open spec fn elapsed(from: Instant, to: Instant) -> u64 {
    if to.nanos >= from.nanos {
        (to.nanos - from.nanos) as u64
    } else {
        0
    }
}

} // verus!
