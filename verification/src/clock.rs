//! The millisecond clock that a worker is given.

use vstd::prelude::*;

verus! {

/// A monotonic millisecond clock. It stands where it was last set and is moved
/// by whoever owns it, so that each worker can carry one of its own and a test
/// can say what time it is. It never runs backwards.
#[derive(Clone, Debug)]
pub struct Clock {
    now_ms: u64,
}

impl View for Clock {
    type V = u64;

    closed spec fn view(&self) -> u64 {
        self.now_ms
    }
}

impl Clock {
    /// A clock that stands at `now_ms`.
    pub fn new(now_ms: u64) -> (clock: Clock)
        ensures
            clock@ == now_ms,
    {
        Clock { now_ms }
    }

    /// Moves the clock forward to `reading_ms`. A reading that lies before the
    /// time that the clock shows leaves the clock where it is.
    pub fn advance_to(&mut self, reading_ms: u64)
        ensures
            final(self)@ == (if reading_ms >= old(self)@ {
                reading_ms
            } else {
                old(self)@
            }),
            final(self)@ >= old(self)@,
    {
        if reading_ms > self.now_ms {
            self.now_ms = reading_ms;
        }
    }
}

/// The time that `clock` shows, in milliseconds.
pub fn current_time_millis(clock: &Clock) -> (now: u64)
    ensures
        now == clock@,
{
    clock.now_ms
}

} // verus!
