//! Durations and instants as counts of nanoseconds.
use vstd::prelude::*;

verus! {

/// A span of time, in nanoseconds.
#[derive(Clone, Copy, Debug, PartialEq, Eq, PartialOrd, Ord, Hash, Structural)]
pub struct Duration {
    nanos: u128,
}

impl View for Duration {
    type V = nat;

    closed spec fn view(&self) -> nat {
        self.nanos as nat
    }
}

impl Duration {
    pub fn from_nanos(nanos: u128) -> (d: Duration)
        ensures
            d@ == nanos,
    {
        Duration { nanos }
    }

    pub fn from_millis(millis: u64) -> (d: Duration)
        ensures
            d@ == millis * 1_000_000,
    {
        assert(millis * 1_000_000 <= u64::MAX * 1_000_000) by (nonlinear_arith);
        Duration { nanos: millis as u128 * 1_000_000 }
    }

    pub fn from_secs(secs: u64) -> (d: Duration)
        ensures
            d@ == secs * 1_000_000_000,
    {
        assert(secs * 1_000_000_000 <= u64::MAX * 1_000_000_000) by (nonlinear_arith);
        Duration { nanos: secs as u128 * 1_000_000_000 }
    }

    pub fn as_nanos(&self) -> (n: u128)
        ensures
            n == self@,
    {
        self.nanos
    }

    /// Whole milliseconds, rounded down.
    pub fn as_millis(&self) -> (n: u128)
        ensures
            n == self@ / 1_000_000,
    {
        self.nanos / 1_000_000
    }

    /// Whether `self` is at least as long as `other`.
    pub fn at_least(&self, other: &Duration) -> (r: bool)
        ensures
            r == (self@ >= other@),
    {
        self.nanos >= other.nanos
    }
}

/// A point in time, in nanoseconds from the clock's origin.
#[derive(Clone, Copy, Debug, PartialEq, Eq, PartialOrd, Ord, Hash, Structural)]
pub struct Instant {
    nanos: u128,
}

impl View for Instant {
    type V = nat;

    closed spec fn view(&self) -> nat {
        self.nanos as nat
    }
}

/// Reads the system clock: `std::time::SystemTime::now`, measured from the Unix
/// epoch (zero if the clock reads earlier). Nothing is promised of the value.
#[verifier::external_body]
fn clock_nanos() -> u128 {
    match std::time::SystemTime::now().duration_since(std::time::UNIX_EPOCH) {
        Ok(elapsed) => elapsed.as_nanos(),
        Err(_) => 0,
    }
}

impl Instant {
    /// The current time.
    pub fn now() -> Instant {
        Instant { nanos: clock_nanos() }
    }

    pub fn from_nanos(nanos: u128) -> (i: Instant)
        ensures
            i@ == nanos,
    {
        Instant { nanos }
    }

    /// The instant `d` later, when it is representable.
    pub fn checked_add(&self, d: Duration) -> (r: Option<Instant>)
        ensures
            r is Some <==> self@ + d@ <= u128::MAX,
            r matches Some(i) ==> i@ == self@ + d@,
    {
        match self.nanos.checked_add(d.nanos) {
            Some(n) => Some(Instant { nanos: n }),
            None => None,
        }
    }

    /// The instant `d` later.
    pub fn plus(&self, d: Duration) -> (r: Instant)
        requires
            self@ + d@ <= u128::MAX,
        ensures
            r@ == self@ + d@,
    {
        Instant { nanos: self.nanos + d.nanos }
    }

    /// The time elapsed since `earlier`, or zero if `earlier` is later.
    pub fn saturating_duration_since(&self, earlier: &Instant) -> (d: Duration)
        ensures
            d@ == if self@ >= earlier@ {
                self@ - earlier@
            } else {
                0
            },
    {
        Duration { nanos: self.nanos.saturating_sub(earlier.nanos) }
    }
}

} // verus!
