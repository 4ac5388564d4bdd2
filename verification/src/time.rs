//! Points in time and lengths of time, in microseconds.
use vstd::prelude::*;

verus! {

/// A point in time, counted in microseconds from an arbitrary origin.
#[derive(Debug, Clone, Copy, PartialEq, Eq, PartialOrd, Ord, Hash, Structural)]
pub struct Instant {
    pub micros: i64,
}

/// A length of time in microseconds.
#[derive(Debug, Clone, Copy, PartialEq, Eq, PartialOrd, Ord, Hash, Structural)]
pub struct Duration {
    pub micros: u64,
}

/// The quotient of `n` by the positive `d`, rounded toward zero.
pub open spec fn quotient(n: int, d: int) -> int {
    if n >= 0 {
        n / d
    } else {
        -((-n) / d)
    }
}

impl Instant {
    /// The instant `micros` microseconds after the origin.
    pub fn from_micros(micros: i64) -> (r: Instant)
        ensures
            r.micros == micros,
    {
        Instant { micros }
    }

    /// The instant `millis` milliseconds after the origin.
    pub fn from_millis(millis: i64) -> (r: Instant)
        requires
            i64::MIN <= millis * 1000 <= i64::MAX,
        ensures
            r.micros == millis * 1000,
    {
        Instant { micros: millis * 1000 }
    }

    /// The instant `secs` seconds after the origin.
    pub fn from_secs(secs: i64) -> (r: Instant)
        requires
            i64::MIN <= secs * 1000000 <= i64::MAX,
        ensures
            r.micros == secs * 1000000,
    {
        Instant { micros: secs * 1000000 }
    }

    /// The whole milliseconds since the origin.
    pub fn total_millis(&self) -> (r: i64)
        ensures
            r == quotient(self.micros as int, 1000),
    {
        self.micros / 1000
    }

    /// The distance between two instants, whichever comes first.
    pub open spec fn distance(self, other: Instant) -> int {
        if self.micros >= other.micros {
            self.micros - other.micros
        } else {
            other.micros - self.micros
        }
    }

    /// The distance between two instants, whichever comes first.
    pub fn abs_diff(&self, other: Instant) -> (r: Duration)
        ensures
            r.micros == self.distance(other),
    {
        let (hi, lo): (i64, i64) = if self.micros >= other.micros {
            (self.micros, other.micros)
        } else {
            (other.micros, self.micros)
        };
        Duration { micros: (hi as i128 - lo as i128) as u64 }
    }
}

impl core::ops::Add<Duration> for Instant {
    type Output = Instant;

    fn add(self, rhs: Duration) -> (r: Instant) {
        Instant { micros: self.micros + rhs.micros as i64 }
    }
}

impl vstd::std_specs::ops::AddSpecImpl<Duration> for Instant {
    open spec fn obeys_add_spec() -> bool {
        true
    }

    /// The later instant must be representable.
    open spec fn add_req(self, rhs: Duration) -> bool {
        &&& rhs.micros <= i64::MAX
        &&& self.micros + rhs.micros <= i64::MAX
    }

    open spec fn add_spec(self, rhs: Duration) -> Instant {
        Instant { micros: (self.micros + rhs.micros) as i64 }
    }
}

impl Duration {
    /// A length of `micros` microseconds.
    pub fn from_micros(micros: u64) -> (r: Duration)
        ensures
            r.micros == micros,
    {
        Duration { micros }
    }

    /// A length of `millis` milliseconds.
    pub fn from_millis(millis: u64) -> (r: Duration)
        requires
            millis * 1000 <= u64::MAX,
        ensures
            r.micros == millis * 1000,
    {
        Duration { micros: millis * 1000 }
    }

    /// A length of `secs` seconds.
    pub fn from_secs(secs: u64) -> (r: Duration)
        requires
            secs * 1000000 <= u64::MAX,
        ensures
            r.micros == secs * 1000000,
    {
        Duration { micros: secs * 1000000 }
    }
}

} // verus!
