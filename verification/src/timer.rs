//! A timer that triggers events which happen periodically. Time is counted
//! in integer nanoseconds; the surrounding program converts wall-clock
//! durations at the boundary.

use vstd::prelude::*;

verus! {

/// Accumulates elapsed time and reports when a full period has passed.
#[derive(Clone, Copy, PartialEq, Eq, Debug, Structural)]
pub struct Timer {
    pub period_ns: u64,
    pub accum_ns: u64,
}

impl Timer {
    pub fn new(period_ns: u64) -> (r: Timer)
        ensures
            r.period_ns == period_ns,
            r.accum_ns == 0,
    {
        Timer { period_ns, accum_ns: 0 }
    }

    pub fn period(&self) -> (r: u64)
        ensures
            r == self.period_ns,
    {
        self.period_ns
    }

    pub fn accum(&self) -> (r: u64)
        ensures
            r == self.accum_ns,
    {
        self.accum_ns
    }

    /// Add elapsed time to the accumulator.
    pub fn advance(&mut self, dt_ns: u64)
        requires
            old(self).accum_ns + dt_ns <= u64::MAX,
        ensures
            final(self).period_ns == old(self).period_ns,
            final(self).accum_ns == old(self).accum_ns + dt_ns,
    {
        self.accum_ns = self.accum_ns + dt_ns;
    }

    /// Has the timer accumulated enough time for one period? If yes,
    /// subtract one period from the accumulator.
    pub fn trigger(&mut self) -> (r: bool)
        ensures
            final(self).period_ns == old(self).period_ns,
            r == (old(self).accum_ns >= old(self).period_ns),
            r ==> final(self).accum_ns == old(self).accum_ns - old(self).period_ns,
            !r ==> final(self).accum_ns == old(self).accum_ns,
    {
        if self.accum_ns >= self.period_ns {
            self.accum_ns = self.accum_ns - self.period_ns;
            true
        } else {
            false
        }
    }

    /// Has the timer accumulated enough time for one period? If yes, reset
    /// the accumulator to zero.
    pub fn trigger_reset(&mut self) -> (r: bool)
        ensures
            final(self).period_ns == old(self).period_ns,
            r == (old(self).accum_ns >= old(self).period_ns),
            r ==> final(self).accum_ns == 0,
            !r ==> final(self).accum_ns == old(self).accum_ns,
    {
        if self.accum_ns >= self.period_ns {
            self.accum_ns = 0;
            true
        } else {
            false
        }
    }

    /// Reset the accumulator; report whether a full period had passed.
    pub fn reset(&mut self) -> (r: bool)
        ensures
            final(self).period_ns == old(self).period_ns,
            final(self).accum_ns == 0,
            r == (old(self).accum_ns >= old(self).period_ns),
    {
        let r = self.accum_ns >= self.period_ns;
        self.accum_ns = 0;
        r
    }
}

} // verus!
