use vstd::prelude::*;

verus! {

/// The count of timer interrupts since boot; it wraps at `u64::MAX` as an atomic add does.
pub struct TickCounter {
    pub count: u64,
}

impl TickCounter {
    pub fn new() -> (t: Self)
        ensures
            t.count == 0,
    {
        TickCounter { count: 0 }
    }

    /// Counts one more tick.
    pub fn increment(&mut self)
        ensures
            final(self).count == (if old(self).count == u64::MAX {
                0
            } else {
                old(self).count + 1
            }),
    {
        self.count = if self.count == u64::MAX {
            0
        } else {
            self.count + 1
        };
    }

    /// The ticks counted so far.
    pub fn get(&self) -> (r: u64)
        ensures
            r == self.count,
    {
        self.count
    }
}

} // verus!
