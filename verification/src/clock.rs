//! The cadence at which the engine's clock is advanced.

use vstd::prelude::*;

verus! {

/// The interval between two ticks where none is configured, in time units.
pub const DEFAULT_TICK_INTERVAL: u64 = 100;

/// What is left of the current interval.
///
/// The wait for the next event is bounded by `remaining`. After each wait the caller
/// reports the time that has passed since the last tick, and the timer says whether the
/// engine is to be ticked now. Time is counted in whatever unit the interval is given in.
#[derive(Clone, Copy, Debug)]
pub struct TickTimer {
    interval: u64,
    remaining: u64,
}

impl TickTimer {
    /// A wait is never longer than the interval, and only an interval of zero makes a
    /// wait of zero.
    #[verifier::type_invariant]
    spec fn well_formed(self) -> bool {
        self.remaining <= self.interval && (self.interval > 0 ==> self.remaining > 0)
    }

    /// The configured interval.
    pub closed spec fn spec_interval(&self) -> u64 {
        self.interval
    }

    /// The longest the next wait may last.
    pub closed spec fn spec_remaining(&self) -> u64 {
        self.remaining
    }

    /// A timer at the start of an interval.
    pub fn new(interval: u64) -> (timer: TickTimer)
        ensures
            timer.interval() == interval,
            timer.remaining() == interval,
    {
        TickTimer { interval, remaining: interval }
    }

    /// The configured interval.
    #[verifier::when_used_as_spec(spec_interval)]
    pub fn interval(&self) -> (interval: u64)
        ensures
            interval == self.interval(),
    {
        self.interval
    }

    /// The longest the next wait may last: at most the interval, and more than nothing
    /// unless the interval is nothing.
    #[verifier::when_used_as_spec(spec_remaining)]
    pub fn remaining(&self) -> (remaining: u64)
        ensures
            remaining == self.remaining(),
            remaining <= self.interval(),
            self.interval() > 0 ==> remaining > 0,
    {
        proof {
            use_type_invariant(self);
        }
        self.remaining
    }

    /// Accounts for a wait that ended `elapsed` time units after the last tick.
    ///
    /// Where that is at least what remained, a tick is due and a full interval begins.
    /// Otherwise no tick is due, and what remains shrinks by `elapsed`. So a tick is
    /// due at the latest once a full interval has passed since the last one.
    pub fn observe(&mut self, elapsed: u64) -> (tick: bool)
        ensures
            tick == (elapsed >= old(self).remaining()),
            elapsed >= old(self).interval() ==> tick,
            final(self).interval() == old(self).interval(),
            final(self).remaining() == if tick {
                old(self).interval() as int
            } else {
                old(self).remaining() - elapsed
            },
    {
        proof {
            use_type_invariant(&*self);
        }
        if elapsed >= self.remaining {
            self.remaining = self.interval;
            true
        } else {
            self.remaining = self.remaining - elapsed;
            false
        }
    }
}

impl Default for TickTimer {
    /// A timer with the default interval.
    fn default() -> (timer: TickTimer)
        ensures
            timer.interval() == DEFAULT_TICK_INTERVAL,
            timer.remaining() == DEFAULT_TICK_INTERVAL,
    {
        TickTimer::new(DEFAULT_TICK_INTERVAL)
    }
}

} // verus!
