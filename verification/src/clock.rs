//! The source of time that a queue stamps its entries with.
use vstd::prelude::*;

verus! {

/// A clock that tells Unix seconds.
///
/// Nothing is assumed of a reading: two of them may differ, and a later one
/// may be smaller.
pub trait Clock {
    /// The current time in Unix seconds.
    fn now_secs(&self) -> u64;
}

/// A clock that always shows the time it was made with.
#[derive(Debug, Clone, Copy)]
pub struct MockClock {
    now: u64,
}

impl MockClock {
    /// The time this clock shows.
    pub closed spec fn shows(&self) -> u64 {
        self.now
    }

    /// A clock standing at `now` Unix seconds.
    pub fn new(now: u64) -> (clock: Self)
        ensures
            clock.shows() == now,
    {
        MockClock { now }
    }
}

impl Clock for MockClock {
    fn now_secs(&self) -> (now: u64)
        ensures
            now == self.shows(),
    {
        self.now
    }
}

} // verus!
