//! Spans of time, points in time and the clock that reads them.
//!
//! A [`Duration`] counts whole nanoseconds and an [`Instant`] is the time that
//! passed since some [`Clock`] was started, so both are plain numbers that
//! contracts can compare and add. Only [`Clock`] asks the operating system.

use vstd::prelude::*;

verus! {

/// Nanoseconds in a second.
pub const NANOS_PER_SEC: u128 = 1_000_000_000;

/// Nanoseconds in a millisecond.
pub const NANOS_PER_MILLI: u128 = 1_000_000;

/// The longest duration: `u64::MAX` seconds and 999 999 999 nanoseconds.
pub const MAX_NANOS: u128 = 18_446_744_073_709_551_615_999_999_999;

/// A span of time with nanosecond resolution. Its view is the number of
/// nanoseconds, which is at most [`MAX_NANOS`].
#[derive(Debug, Clone, Copy, PartialEq, Eq, Structural)]
pub struct Duration {
    nanos: u128,
}

impl View for Duration {
    type V = nat;

    closed spec fn view(&self) -> nat {
        self.nanos as nat
    }
}

/// The number of nanoseconds of a number of seconds.
pub open spec fn secs(n: nat) -> nat {
    n * NANOS_PER_SEC as nat
}

/// The number of nanoseconds of a number of milliseconds.
pub open spec fn millis(n: nat) -> nat {
    n * NANOS_PER_MILLI as nat
}

impl Duration {
    #[verifier::type_invariant]
    spec fn fits(self) -> bool {
        self.nanos <= MAX_NANOS
    }

    /// The duration of a number of seconds.
    pub fn from_secs(count: u64) -> (d: Duration)
        ensures
            d@ == secs(count as nat),
    {
        Duration { nanos: count as u128 * NANOS_PER_SEC }
    }

    /// The duration of a number of milliseconds.
    pub fn from_millis(count: u64) -> (d: Duration)
        ensures
            d@ == millis(count as nat),
    {
        Duration { nanos: count as u128 * NANOS_PER_MILLI }
    }

    /// The duration of a number of nanoseconds, cut off at the longest duration.
    pub fn from_nanos(count: u128) -> (d: Duration)
        ensures
            d@ == if count <= MAX_NANOS { count as nat } else { MAX_NANOS as nat },
    {
        if count <= MAX_NANOS {
            Duration { nanos: count }
        } else {
            Duration { nanos: MAX_NANOS }
        }
    }

    /// The number of nanoseconds.
    pub fn as_nanos(&self) -> (n: u128)
        ensures
            n == self@,
            n <= MAX_NANOS,
    {
        proof {
            use_type_invariant(self);
        }
        self.nanos
    }

    /// The number of whole milliseconds.
    pub fn as_millis(&self) -> (n: u128)
        ensures
            n == self@ / NANOS_PER_MILLI as nat,
    {
        self.nanos / NANOS_PER_MILLI
    }

    /// The number of whole seconds.
    pub fn as_secs(&self) -> (n: u64)
        ensures
            n == self@ / NANOS_PER_SEC as nat,
    {
        proof {
            use_type_invariant(self);
        }
        (self.nanos / NANOS_PER_SEC) as u64
    }

    /// The nanoseconds beyond the whole seconds.
    pub fn subsec_nanos(&self) -> (n: u32)
        ensures
            n == self@ % NANOS_PER_SEC as nat,
    {
        (self.nanos % NANOS_PER_SEC) as u32
    }

    /// Whether this duration is longer than `other`.
    pub fn exceeds(&self, other: Duration) -> (b: bool)
        ensures
            b == (self@ > other@),
    {
        self.nanos > other.nanos
    }

    /// Whether this duration is at least as long as `other`.
    pub fn reaches(&self, other: Duration) -> (b: bool)
        ensures
            b == (self@ >= other@),
    {
        self.nanos >= other.nanos
    }

    /// Whether the duration is empty.
    pub fn is_zero(&self) -> (b: bool)
        ensures
            b == (self@ == 0),
    {
        self.nanos == 0
    }

    /// The duration `factor` times over.
    pub fn times(&self, factor: u32) -> (d: Duration)
        requires
            self@ * factor <= MAX_NANOS,
        ensures
            d@ == self@ * factor,
    {
        Duration { nanos: self.nanos * factor as u128 }
    }

    /// One of `parts` equal parts, rounded down to a nanosecond.
    pub fn divided_by(&self, parts: u32) -> (d: Duration)
        requires
            parts > 0,
        ensures
            d@ == self@ / parts as nat,
    {
        proof {
            use_type_invariant(self);
            vstd::arithmetic::div_mod::lemma_div_is_ordered_by_denominator(
                self.nanos as int,
                1,
                parts as int,
            );
        }
        Duration { nanos: self.nanos / parts as u128 }
    }

    /// The shorter of two durations.
    pub fn shorter(&self, other: Duration) -> (d: Duration)
        ensures
            d@ == if self@ <= other@ { self@ } else { other@ },
    {
        if self.nanos <= other.nanos {
            *self
        } else {
            other
        }
    }
}

/// A point in time: how long after the start of a clock it lies. Its view is
/// that number of nanoseconds.
#[derive(Debug, Clone, Copy, PartialEq, Eq, Structural)]
pub struct Instant {
    since_start: Duration,
}

impl View for Instant {
    type V = nat;

    closed spec fn view(&self) -> nat {
        self.since_start@
    }
}

/// How long after `earlier` the point `later` lies, and zero where it does not
/// lie after it.
pub open spec fn passed(earlier: nat, later: nat) -> nat {
    if later >= earlier {
        (later - earlier) as nat
    } else {
        0
    }
}

impl Instant {
    /// The point a given time after the start of the clock.
    pub fn after_start(since_start: Duration) -> (i: Instant)
        ensures
            i@ == since_start@,
    {
        Instant { since_start }
    }

    /// The time from `earlier` to this point, zero if `earlier` is later.
    pub fn duration_since(&self, earlier: Instant) -> (d: Duration)
        ensures
            d@ == passed(earlier@, self@),
    {
        let later: u128 = self.since_start.as_nanos();
        let sooner: u128 = earlier.since_start.as_nanos();
        if later >= sooner {
            Duration::from_nanos(later - sooner)
        } else {
            Duration::from_nanos(0)
        }
    }

    /// The point `delay` later, cut off at the last point a clock can show.
    pub fn plus(&self, delay: Duration) -> (i: Instant)
        ensures
            i@ == if self@ + delay@ <= MAX_NANOS { self@ + delay@ } else { MAX_NANOS as nat },
    {
        Instant {
            since_start: Duration::from_nanos(self.since_start.as_nanos() + delay.as_nanos()),
        }
    }
}

/// `std::time::Instant`, a reading of the operating system's monotonic clock.
#[verifier::external_type_specification]
#[verifier::external_body]
pub struct ExInstant(std::time::Instant);

/// A clock that was started once and counts from there.
pub struct Clock {
    origin: std::time::Instant,
}

impl Clock {
    /// Starts a clock. When that is depends on the machine: the contract promises nothing.
    pub fn start() -> Clock {
        Clock { origin: monotonic_now() }
    }

    /// What the clock shows. Any point may come back: the contract promises nothing.
    pub fn now(&self) -> Instant {
        Instant { since_start: Duration::from_nanos(nanos_since(&self.origin)) }
    }
}

/// Calls `std::time::Instant::now`. The reading depends on the machine, so
/// nothing is claimed of it.
#[verifier::external_body]
fn monotonic_now() -> std::time::Instant {
    std::time::Instant::now()
}

/// Calls `std::time::Instant::elapsed` and counts its result in nanoseconds. The
/// time depends on the machine, so nothing is claimed of it.
#[verifier::external_body]
fn nanos_since(origin: &std::time::Instant) -> u128 {
    origin.elapsed().as_nanos()
}

/// Time passes forward: as much as lies between two points has passed at the later one, and
/// nothing at the earlier.
pub proof fn time_passes(start: nat, span: nat)
    ensures
        passed(start, start + span) == span,
        passed(start + span, start) == 0,
{
}

/// A second has a thousand milliseconds, and a millisecond a million nanoseconds.
pub proof fn units_are_decimal(n: nat)
    ensures
        millis(n) == 1_000_000 * n,
        secs(n) == 1_000_000_000 * n,
        secs(n) == millis(1000 * n),
{
}

} // verus!
