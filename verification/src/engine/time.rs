//! The tick clock. Time is counted in nanoseconds on a monotonic clock that the
//! caller reads.

use vstd::prelude::*;

verus! {

/// Nanoseconds in one second.
pub const SECOND: u64 = 1_000_000_000;

/// The instant of the last step and the time that step covered.
#[derive(Clone, Copy, Debug, PartialEq, Eq, Structural)]
pub struct Timing {
    pub last_tick: u64,
    pub delta_time: u64,
}

/// The time from `since` to `now`; zero where the clock reads earlier than `since`.
pub open spec fn elapsed(since: u64, now: u64) -> int {
    if now >= since {
        now - since
    } else {
        0
    }
}

impl Timing {
    /// A clock at its origin: the last step was at time zero and covered no time.
    pub fn new() -> (t: Timing)
        ensures
            t == (Timing { last_tick: 0, delta_time: 0 }),
    {
        Timing { last_tick: 0, delta_time: 0 }
    }

    /// Whether a step is due at `now` for `rate` steps a second: whether at least
    /// `1/rate` seconds have passed since the last step.
    pub fn due(&self, now: u64, rate: u64) -> (yes: bool)
        ensures
            yes == (elapsed(self.last_tick, now) * rate >= SECOND),
    {
        let passed: u64 = if now >= self.last_tick {
            now - self.last_tick
        } else {
            0
        };
        assert(passed * rate <= u64::MAX * u64::MAX) by (nonlinear_arith)
            requires
                passed <= u64::MAX,
                rate <= u64::MAX,
        ;
        (passed as u128) * (rate as u128) >= SECOND as u128
    }

    /// Takes a step at `now`: the time since the last step becomes `delta_time`.
    pub fn update(&mut self, now: u64)
        ensures
            final(self).delta_time == elapsed(old(self).last_tick, now),
            final(self).last_tick == now,
    {
        self.delta_time = if now >= self.last_tick {
            now - self.last_tick
        } else {
            0
        };
        self.last_tick = now;
    }
}

} // verus!
