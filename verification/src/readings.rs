//! What was read from a clock.

use crate::time::{Clock, Instant, Reading};
use vstd::prelude::*;

verus! {

/// The time by a clock as it was last read.
///
/// Time does not run backwards in it: should the machine's clock ever show an earlier point than
/// before, which the standard library rules out, it counts as standing still.
#[derive(Debug)]
pub struct Readings {
    last: Option<Reading>,
    time: Instant,
    taken: u64,
}

impl Readings {
    /// The latest reading, if there was any.
    pub closed spec fn last(self) -> Option<Reading> {
        self.last
    }

    /// The latest time, that of the clock's origin if it was never read.
    pub closed spec fn time(self) -> nat {
        self.time@
    }

    /// How many readings were taken; after the largest number the count starts anew.
    pub closed spec fn taken(self) -> u64 {
        self.taken
    }

    /// No readings at all.
    pub(crate) fn none() -> (readings: Readings)
        ensures
            readings.last() is None,
            readings.time() == 0,
    {
        Readings { last: None, time: Instant { nanos: 0 }, taken: 0 }
    }

    /// Reads the clock once, and gives the time.
    pub(crate) fn read(&mut self, clock: &Clock) -> (now: Instant)
        ensures
            read_once(*old(self), *clock, *final(self)),
            final(self).time() == now@,
    {
        self.taken = if self.taken == u64::MAX {
            0
        } else {
            self.taken + 1
        };
        let reading = clock.now(self.taken);
        let shown = reading.instant();
        if self.time.nanos < shown.nanos {
            self.time = shown;
        }
        self.last = Some(reading);
        self.time
    }
}

/// Whether the clock was read once between `before` and `after`: there is one reading more, it is
/// of this clock and taken under the new count, and the time is what the clock showed then, or
/// what it was before if that is later.
pub open spec fn read_once(before: Readings, clock: Clock, after: Readings) -> bool {
    &&& after.taken() == if before.taken() == u64::MAX {
        0
    } else {
        before.taken() + 1
    }
    &&& after.last() matches Some(reading) && {
        &&& reading.is_of(clock)
        &&& reading.mark() == after.taken()
        &&& after.time() == if reading.shown() < before.time() {
            before.time()
        } else {
            reading.shown()
        }
    }
}

} // verus!
