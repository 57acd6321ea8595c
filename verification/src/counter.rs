//! The monotonic counter every table draws short ids from: it hands out
//! strictly increasing, never-repeating values, so ids are unique across
//! tables. Allocation fails only when the id space is exhausted, and a failed
//! allocation changes nothing.

use vstd::prelude::*;

verus! {

/// Mints short ids. Each successful `next_count` returns a value strictly
/// greater than every value returned before.
pub struct Counter {
    count: u64,
}

impl Counter {
    /// The last value handed out (0 before any).
    pub closed spec fn view(&self) -> u64 {
        self.count
    }

    /// A fresh counter that has handed out nothing yet.
    pub fn new() -> (r: Counter)
        ensures
            r@ == 0,
    {
        Counter { count: 0 }
    }

    /// A counter resuming from a persisted high-water mark: it will never
    /// hand out a value at or below `last`.
    pub fn resume(last: u64) -> (r: Counter)
        ensures
            r@ == last,
    {
        Counter { count: last }
    }

    /// The current high-water mark.
    pub fn current(&self) -> (r: u64)
        ensures
            r == self@,
    {
        self.count
    }

    /// Mint the next id: strictly above everything handed out so far. Fails
    /// without changing anything once the id space is exhausted.
    pub fn next_count(&mut self) -> (r: Result<u64, crate::DataError>)
        ensures
            old(self)@ < u64::MAX ==> r == Ok::<u64, crate::DataError>((old(self)@ + 1) as u64)
                && final(self)@ == old(self)@ + 1,
            old(self)@ == u64::MAX ==> r == Err::<u64, crate::DataError>(
                crate::DataError::CounterExhausted,
            ) && final(self)@ == old(self)@,
    {
        if self.count == u64::MAX {
            Err(crate::DataError::CounterExhausted)
        } else {
            self.count = self.count + 1;
            Ok(self.count)
        }
    }
}

} // verus!
