//! Clock access goes through a port so that callers control time.
use vstd::prelude::*;

use crate::time::Timestamp;

verus! {

/// A source of the current time.
pub trait ClockPort {
    fn now(&self) -> Timestamp;
}

/// A clock that stands still until it is advanced.
#[derive(Debug)]
pub struct FakeClock {
    current: i64,
}

impl FakeClock {
    /// The time the clock shows.
    pub closed spec fn shows(&self) -> Timestamp {
        Timestamp(self.current)
    }

    pub fn new(start: Timestamp) -> (r: Self)
        ensures
            r.shows() == start,
    {
        FakeClock { current: start.0 }
    }

    /// Moves the clock by `by_millis`, around the ends of `i64` if need be.
    pub fn advance(&mut self, by_millis: i64)
        ensures
            final(self).shows() == Timestamp(
                vstd::wrapping::i64_specs::wrapping_add(old(self).shows().0, by_millis),
            ),
    {
        self.current = self.current.wrapping_add(by_millis);
    }
}

impl ClockPort for FakeClock {
    fn now(&self) -> (r: Timestamp)
        ensures
            r == self.shows(),
    {
        Timestamp(self.current)
    }
}

} // verus!
