//! Spans of time, in whole nanoseconds.

use vstd::prelude::*;

verus! {

pub const NANOS_PER_SEC: u128 = 1_000_000_000;

pub const NANOS_PER_MILLI: u128 = 1_000_000;

pub const NANOS_PER_MICRO: u128 = 1_000;

/// A span of time. The value is its length in nanoseconds.
#[derive(Debug, Clone, Copy, PartialEq, Eq, PartialOrd, Ord, Hash, Structural)]
pub struct Duration {
    pub nanos: u128,
}

impl Default for Duration {
    fn default() -> (r: Duration)
        ensures
            r.nanos == 0,
    {
        Duration { nanos: 0 }
    }
}

impl Duration {
    pub fn from_secs(secs: u64) -> (r: Duration)
        ensures
            r.nanos == secs * NANOS_PER_SEC,
    {
        Duration { nanos: secs as u128 * NANOS_PER_SEC }
    }

    pub fn from_millis(millis: u64) -> (r: Duration)
        ensures
            r.nanos == millis * NANOS_PER_MILLI,
    {
        Duration { nanos: millis as u128 * NANOS_PER_MILLI }
    }

    pub fn from_micros(micros: u64) -> (r: Duration)
        ensures
            r.nanos == micros * NANOS_PER_MICRO,
    {
        Duration { nanos: micros as u128 * NANOS_PER_MICRO }
    }

    pub fn from_nanos(nanos: u64) -> (r: Duration)
        ensures
            r.nanos == nanos,
    {
        Duration { nanos: nanos as u128 }
    }

    pub fn as_nanos(&self) -> (r: u128)
        ensures
            r == self.nanos,
    {
        self.nanos
    }

    /// Whole milliseconds, rounded down.
    pub fn as_millis(&self) -> (r: u128)
        ensures
            r == self.nanos as nat / 1_000_000,
    {
        self.nanos / NANOS_PER_MILLI
    }

    /// Whole seconds, rounded down.
    pub fn as_secs(&self) -> (r: u128)
        ensures
            r == self.nanos as nat / 1_000_000_000,
    {
        self.nanos / NANOS_PER_SEC
    }

    /// `self - other`, or nothing when `other` is the longer.
    pub fn saturating_sub(self, other: Duration) -> (r: Duration)
        ensures
            r.nanos == (if self.nanos >= other.nanos {
                self.nanos - other.nanos
            } else {
                0
            }),
    {
        if self.nanos >= other.nanos {
            Duration { nanos: self.nanos - other.nanos }
        } else {
            Duration { nanos: 0 }
        }
    }
}

/// A reading of a monotonic clock: nanoseconds since an origin that stays put
/// for as long as the process runs.
#[derive(Debug, Clone, Copy, PartialEq, Eq, PartialOrd, Ord, Hash, Structural)]
pub struct Instant {
    pub nanos: u128,
}

/// `t + d`; a sum that no reading can hold is the last reading there is.
pub open spec fn moved(t: Instant, d: Duration) -> Instant {
    if t.nanos + d.nanos <= u128::MAX {
        Instant { nanos: (t.nanos + d.nanos) as u128 }
    } else {
        Instant { nanos: u128::MAX }
    }
}

/// How far `later` lies behind `earlier`; nothing when it does not.
pub open spec fn elapsed(earlier: Instant, later: Instant) -> Duration {
    if later.nanos >= earlier.nanos {
        Duration { nanos: (later.nanos - earlier.nanos) as u128 }
    } else {
        Duration { nanos: 0 }
    }
}

impl Instant {
    pub fn after(self, d: Duration) -> (r: Instant)
        ensures
            r == moved(self, d),
    {
        if self.nanos <= u128::MAX - d.nanos {
            Instant { nanos: self.nanos + d.nanos }
        } else {
            Instant { nanos: u128::MAX }
        }
    }

    /// Time since `earlier`, or nothing when `earlier` is the later one.
    pub fn saturating_duration_since(self, earlier: Instant) -> (r: Duration)
        ensures
            r == elapsed(earlier, self),
    {
        if self.nanos >= earlier.nanos {
            Duration { nanos: self.nanos - earlier.nanos }
        } else {
            Duration { nanos: 0 }
        }
    }
}

} // verus!
