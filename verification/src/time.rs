//! Spans and points of time, in nanoseconds.
use vstd::prelude::*;

verus! {

/// The nanoseconds of a second.
pub const NANOS_PER_SEC: u128 = 1_000_000_000;

/// The nanoseconds of a millisecond.
pub const NANOS_PER_MILLI: u128 = 1_000_000;

/// A span of time.
#[derive(Debug, Clone, Copy, PartialEq, Eq, PartialOrd, Ord, Structural)]
pub struct Duration {
    pub nanos: u128,
}

impl Duration {
    /// So many seconds.
    pub open spec fn secs(n: nat) -> nat {
        n * 1_000_000_000
    }

    /// So many seconds.
    pub fn from_secs(n: u64) -> (r: Duration)
        ensures
            r.nanos == Duration::secs(n as nat),
    {
        Duration { nanos: (n as u128) * NANOS_PER_SEC }
    }

    /// So many milliseconds.
    pub fn from_millis(n: u64) -> (r: Duration)
        ensures
            r.nanos == n * NANOS_PER_MILLI,
    {
        Duration { nanos: (n as u128) * NANOS_PER_MILLI }
    }

    /// The whole seconds in the span.
    pub fn as_secs(&self) -> (r: u128)
        ensures
            r == self.nanos / NANOS_PER_SEC,
    {
        self.nanos / NANOS_PER_SEC
    }

    /// Whether the span is no time.
    pub fn is_zero(&self) -> (r: bool)
        ensures
            r == (self.nanos == 0),
    {
        self.nanos == 0
    }
}

/// A point of time, counted from a start that all points share.
#[derive(Debug, Clone, Copy, PartialEq, Eq, PartialOrd, Ord, Structural)]
pub struct Instant {
    pub nanos: u128,
}

/// The span from the earlier to the later; none where the order is the other way round.
pub open spec fn span(from: Instant, to: Instant) -> Duration {
    Duration {
        nanos: if to.nanos >= from.nanos {
            (to.nanos - from.nanos) as u128
        } else {
            0
        },
    }
}

impl Instant {
    /// The span since `earlier`; none where `earlier` is later.
    pub fn duration_since(&self, earlier: Instant) -> (r: Duration)
        ensures
            r == span(earlier, *self),
    {
        if self.nanos >= earlier.nanos {
            Duration { nanos: self.nanos - earlier.nanos }
        } else {
            Duration { nanos: 0 }
        }
    }

    /// The point so much later.
    pub fn plus(&self, d: Duration) -> (r: Instant)
        requires
            self.nanos + d.nanos <= u128::MAX,
        ensures
            r.nanos == self.nanos + d.nanos,
    {
        Instant { nanos: self.nanos + d.nanos }
    }
}

} // verus!
