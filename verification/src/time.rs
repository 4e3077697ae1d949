//! Clock readings and spans as nanosecond counts.
//!
//! The library never reads a clock. Callers hand in the reading of their
//! monotonic clock (`Instant`), of the wall clock (`SystemTime`), or of both
//! (`Clock`), so every decision is a function of its arguments.

use vstd::prelude::*;

verus! {

pub const NANOS_PER_MILLI: u64 = 1_000_000;

pub const NANOS_PER_SEC: u64 = 1_000_000_000;

/// A span of time.
#[derive(Clone, Copy, PartialEq, Eq, PartialOrd, Ord, Structural, Debug)]
pub struct Duration {
    pub nanos: u64,
}

impl Duration {
    pub fn from_nanos(nanos: u64) -> (d: Self)
        ensures
            d.nanos == nanos,
    {
        Duration { nanos }
    }

    pub fn from_millis(millis: u64) -> (d: Self)
        requires
            millis * 1_000_000 <= u64::MAX,
        ensures
            d.nanos == millis * 1_000_000,
    {
        Duration { nanos: millis * NANOS_PER_MILLI }
    }

    pub fn from_secs(secs: u64) -> (d: Self)
        requires
            secs * 1_000_000_000 <= u64::MAX,
        ensures
            d.nanos == secs * 1_000_000_000,
    {
        Duration { nanos: secs * NANOS_PER_SEC }
    }
}

/// A reading of the monotonic clock.
#[derive(Clone, Copy, PartialEq, Eq, PartialOrd, Ord, Structural, Debug)]
pub struct Instant {
    pub nanos: u64,
}

impl Instant {
    /// Nanoseconds since `earlier`, zero if `earlier` is later.
    pub open spec fn nanos_since(self, earlier: Instant) -> nat {
        if earlier.nanos <= self.nanos {
            (self.nanos - earlier.nanos) as nat
        } else {
            0
        }
    }

    pub fn from_nanos(nanos: u64) -> (t: Self)
        ensures
            t.nanos == nanos,
    {
        Instant { nanos }
    }

    /// The span since `earlier`, or zero if `earlier` is later.
    pub fn saturating_duration_since(self, earlier: Instant) -> (d: Duration)
        ensures
            d.nanos == self.nanos_since(earlier),
    {
        if earlier.nanos <= self.nanos {
            Duration { nanos: self.nanos - earlier.nanos }
        } else {
            Duration { nanos: 0 }
        }
    }

    /// The reading `span` later.
    pub fn after(self, span: Duration) -> (t: Self)
        requires
            self.nanos + span.nanos <= u64::MAX,
        ensures
            t.nanos == self.nanos + span.nanos,
    {
        Instant { nanos: self.nanos + span.nanos }
    }
}

/// A reading of the wall clock, counted from the Unix epoch.
#[derive(Clone, Copy, PartialEq, Eq, PartialOrd, Ord, Structural, Debug)]
pub struct SystemTime {
    pub nanos: u64,
}

/// Both clocks, read together.
#[derive(Clone, Copy, PartialEq, Eq, Structural, Debug)]
pub struct Clock {
    pub now: Instant,
    pub wall: SystemTime,
}

} // verus!
