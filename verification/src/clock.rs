use vstd::prelude::*;

verus! {

/// A fixed-period tick source.  The caller reads the wall clock and hands
/// in the milliseconds elapsed since the clock was built; `tick` compares
/// them against the next uncounted period boundary.  Polling after a stall
/// returns true once per call until the count has caught up, so no period
/// is ever skipped, and the count never resets.
pub struct Clock {
    pub period_ms: u64,
    pub next_tick: u32,
}

impl Clock {
    pub fn new(period_ms: u64) -> (r: Self)
        ensures
            r.period_ms == period_ms,
            r.next_tick == 1,
    {
        Clock { period_ms, next_tick: 1 }
    }

    /// One poll: true exactly when the elapsed time has passed the next
    /// uncounted period boundary, which is then counted.
    pub fn tick(&mut self, elapsed_ms: u64) -> (r: bool)
        requires
            old(self).next_tick < u32::MAX,
        ensures
            final(self).period_ms == old(self).period_ms,
            r == (elapsed_ms > old(self).period_ms * old(self).next_tick),
            r ==> final(self).next_tick == old(self).next_tick + 1,
            !r ==> final(self).next_tick == old(self).next_tick,
    {
        proof {
            assert((self.period_ms as int) * (self.next_tick as int) < 0x1_0000_0000_0000_0000_0000_0000)
                by (nonlinear_arith)
                requires
                    self.period_ms <= u64::MAX && self.next_tick <= u32::MAX,
            ;
        }
        let due = (self.period_ms as u128) * (self.next_tick as u128);
        if (elapsed_ms as u128) > due {
            self.next_tick = self.next_tick + 1;
            true
        } else {
            false
        }
    }
}

} // verus!
