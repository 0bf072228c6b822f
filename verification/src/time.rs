//! Spans of time, points in time, and the monotonic clock that they come from.

use vstd::prelude::*;

verus! {

/// The number of nanoseconds in a second.
pub const NANOS_PER_SEC: u128 = 1_000_000_000;

/// A span of time, in nanoseconds.
#[derive(Debug, Clone, Copy, PartialEq, Eq, Structural)]
pub struct Duration {
    /// The length of the span.
    pub nanos: u128,
}

impl View for Duration {
    type V = nat;

    open spec fn view(&self) -> nat {
        self.nanos as nat
    }
}

impl Duration {
    /// The span of the given number of whole seconds.
    pub fn from_secs(secs: u64) -> (span: Duration)
        ensures
            span@ == secs * NANOS_PER_SEC,
    {
        assert(secs * NANOS_PER_SEC <= u64::MAX * NANOS_PER_SEC) by (nonlinear_arith)
            requires
                secs <= u64::MAX,
        ;
        Duration { nanos: secs as u128 * NANOS_PER_SEC }
    }
}

/// A point in time: so many nanoseconds after the origin of the clock that read it.
#[derive(Debug, Clone, Copy, PartialEq, Eq, Structural)]
pub struct Instant {
    /// The distance from the clock's origin.
    pub nanos: u128,
}

impl View for Instant {
    type V = nat;

    open spec fn view(&self) -> nat {
        self.nanos as nat
    }
}

/// The nanoseconds from `earlier` to `later`, and none where `earlier` comes second.
pub open spec fn elapsed(earlier: nat, later: nat) -> nat {
    if earlier <= later {
        (later - earlier) as nat
    } else {
        0
    }
}

impl Instant {
    /// The span from `earlier` to this point, zero if `earlier` is the later of the two.
    pub fn duration_since(&self, earlier: Instant) -> (span: Duration)
        ensures
            span@ == elapsed(earlier@, self@),
    {
        if earlier.nanos <= self.nanos {
            Duration { nanos: self.nanos - earlier.nanos }
        } else {
            Duration { nanos: 0 }
        }
    }
}

/// The monotonic clock of the machine.
#[verifier::external_type_specification]
#[verifier::external_body]
pub struct ExStdInstant(std::time::Instant);

/// A monotonic clock that counts from the moment at which it was started.
#[derive(Debug)]
pub struct Clock {
    origin: std::time::Instant,
}

/// One reading of a clock: what it showed, under the mark that the reader gave.
#[derive(Debug)]
pub struct Reading {
    origin: std::time::Instant,
    shown: Instant,
    mark: u64,
}

impl Reading {
    /// What the clock showed.
    pub closed spec fn shown(self) -> nat {
        self.shown@
    }

    /// The mark of the reading.
    pub closed spec fn mark(self) -> u64 {
        self.mark
    }

    /// Whether it was this clock that was read.
    pub closed spec fn is_of(self, clock: Clock) -> bool {
        self.origin == clock.origin
    }

    /// What the clock showed.
    pub(crate) fn instant(&self) -> (shown: Instant)
        ensures
            shown@ == self.shown(),
    {
        self.shown
    }
}

impl Clock {
    /// Starts a clock: its origin is now.
    pub(crate) fn start() -> Clock {
        Clock { origin: monotonic_now() }
    }

    /// Reads the clock. Which point it shows is up to the machine.
    pub(crate) fn now(&self, mark: u64) -> (reading: Reading)
        ensures
            reading.is_of(*self),
            reading.mark() == mark,
    {
        let shown = Instant { nanos: nanos_since(&self.origin) };
        Reading { origin: self.origin, shown, mark }
    }
}

/// Calls `std::time::Instant::now`. Nothing is claimed of what the machine's clock shows.
#[verifier::external_body]
fn monotonic_now() -> std::time::Instant {
    std::time::Instant::now()
}

/// Calls `std::time::Instant::elapsed` and gives the span in nanoseconds. Nothing is claimed of
/// how much time has passed since `origin`.
#[verifier::external_body]
fn nanos_since(origin: &std::time::Instant) -> u128 {
    origin.elapsed().as_nanos()
}

} // verus!
