//! The sampler's scheduling decisions: one call per tick of a one-second
//! timer says whether to take a sample now, and adapts the sampling period
//! to whether anyone is subscribed.
use vstd::prelude::*;

verus! {

/// The delay that follows `d` on the idle back-off ladder 1, 5, 10, 30, 60.
pub open spec fn next_idle_delay(d: u64) -> u64 {
    if d == 1 {
        5
    } else if d == 5 {
        10
    } else if d == 10 {
        30
    } else {
        60
    }
}

/// A rung of the back-off ladder.
pub open spec fn on_ladder(d: u64) -> bool {
    d == 1 || d == 5 || d == 10 || d == 30 || d == 60
}

/// Ticks since the last sample, and how many ticks to wait between samples.
#[derive(Debug, Clone, Copy, PartialEq, Eq)]
pub struct Sampler {
    pub ticks: u64,
    pub delay: u64,
}

impl Sampler {
    pub open spec fn wf(self) -> bool {
        on_ladder(self.delay) && self.ticks < self.delay
    }

    /// The state after one tick with `subscribers` listening, and whether a
    /// sample is taken on it. With listeners the delay drops to one tick at
    /// once; a sample is taken once the delay has elapsed, and then the delay
    /// resets to one tick with listeners, or climbs one rung without.
    pub open spec fn step(self, subscribers: usize) -> (Sampler, bool) {
        let active = subscribers > 0;
        let ticks = self.ticks + 1;
        let delay = if active {
            1
        } else {
            self.delay
        };
        if ticks >= delay {
            (
                Sampler {
                    ticks: 0,
                    delay: if active {
                        1
                    } else {
                        next_idle_delay(delay)
                    },
                },
                true,
            )
        } else {
            (Sampler { ticks: ticks as u64, delay }, false)
        }
    }

    /// A sampler that samples on its first tick.
    pub fn new() -> (r: Sampler)
        ensures
            r.ticks == 0,
            r.delay == 1,
            r.wf(),
    {
        Sampler { ticks: 0, delay: 1 }
    }

    /// Advances one tick; returns whether a sample is to be taken now.
    pub fn on_tick(&mut self, subscribers: usize) -> (sample: bool)
        requires
            old(self).wf(),
        ensures
            (*final(self), sample) == old(self).step(subscribers),
            final(self).wf(),
    {
        let active = subscribers > 0;
        self.ticks = self.ticks + 1;
        if active {
            self.delay = 1;
        }
        if self.ticks >= self.delay {
            self.ticks = 0;
            self.delay = if active {
                1
            } else {
                match self.delay {
                    1 => 5,
                    5 => 10,
                    10 => 30,
                    _ => 60,
                }
            };
            true
        } else {
            false
        }
    }
}

} // verus!
