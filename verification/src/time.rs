//! Spans of time, to the nanosecond.

use vstd::prelude::*;

verus! {

/// The longest span: 2 to the power of 64 seconds, less one nanosecond.
pub const MAX_NANOS: u128 = 18_446_744_073_709_551_615_999_999_999;

/// A span of time.
#[derive(Debug, Clone, Copy, PartialEq, Eq, PartialOrd, Ord, Hash, Structural)]
pub struct Duration {
    /// Nanoseconds.
    pub nanos: u128,
}

/// A span of the given number of milliseconds.
pub open spec fn millis(ms: int) -> Duration {
    Duration { nanos: (ms * 1_000_000) as u128 }
}

/// A span of the given number of seconds.
pub open spec fn seconds(s: int) -> Duration {
    Duration { nanos: (s * 1_000_000_000) as u128 }
}

impl Duration {
    /// Whether the span is not too long.
    pub open spec fn wf(self) -> bool {
        self.nanos <= MAX_NANOS
    }

    /// The span `n` times over.
    pub open spec fn times(self, n: int) -> Duration {
        Duration { nanos: (self.nanos * n) as u128 }
    }

    /// The shorter of two spans.
    pub open spec fn least(self, other: Duration) -> Duration {
        if self.nanos <= other.nanos {
            self
        } else {
            other
        }
    }

    /// A span of the given number of milliseconds.
    pub fn from_millis(ms: u64) -> (res: Self)
        ensures
            res == millis(ms as int),
            res.wf(),
    {
        Duration { nanos: ms as u128 * 1_000_000 }
    }

    /// A span of the given number of seconds.
    pub fn from_secs(s: u64) -> (res: Self)
        ensures
            res == seconds(s as int),
            res.wf(),
    {
        Duration { nanos: s as u128 * 1_000_000_000 }
    }

    /// The span `n` times over.
    pub fn multiplied(self, n: u32) -> (res: Self)
        requires
            self.nanos * n <= MAX_NANOS,
        ensures
            res == self.times(n as int),
            res.wf(),
    {
        Duration { nanos: self.nanos * n as u128 }
    }

    /// The shorter of two spans.
    pub fn shorter(self, other: Duration) -> (res: Self)
        ensures
            res == self.least(other),
    {
        if self.nanos <= other.nanos {
            self
        } else {
            other
        }
    }
}

/// A second is a thousand milliseconds, and a thousand million nanoseconds.
pub proof fn seconds_are_a_thousand_milliseconds(s: u64)
    ensures
        seconds(s as int) == millis(s * 1000),
        seconds(s as int).nanos == s * 1_000_000_000,
        millis(s as int).nanos == s * 1_000_000,
{
}

/// The shorter of two spans is one of them, and no longer than either.
pub proof fn shorter_spans_win(a: Duration, b: Duration)
    ensures
        a.least(b) == a || a.least(b) == b,
        a.least(b).nanos <= a.nanos,
        a.least(b).nanos <= b.nanos,
        a.nanos * 2 <= MAX_NANOS ==> a.times(2).nanos == a.nanos + a.nanos,
{
}

} // verus!
