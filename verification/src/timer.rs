//! Frame timing as pure bookkeeping over a monotonic clock the host program
//! reads: every call takes the current reading in nanoseconds.

use vstd::prelude::*;

verus! {

/// A stopwatch over a host-read monotonic clock.
#[derive(Debug, Clone, PartialEq)]
pub struct Timer {
    start_nanos: u64,
}

impl Timer {
    pub closed spec fn spec_start(&self) -> u64 {
        self.start_nanos
    }

    /// A timer started at the given clock reading.
    pub fn new(now_nanos: u64) -> (r: Timer)
        ensures
            r.spec_start() == now_nanos,
    {
        Timer { start_nanos: now_nanos }
    }

    /// Restarts the timer at the given clock reading.
    pub fn update(&mut self, now_nanos: u64)
        ensures
            final(self).spec_start() == now_nanos,
    {
        self.start_nanos = now_nanos;
    }

    /// Nanoseconds since the timer started; zero when the clock reading ran
    /// backwards.
    pub fn elapsed_nanos(&self, now_nanos: u64) -> (r: u64)
        ensures
            r == if now_nanos >= self.spec_start() {
                now_nanos - self.spec_start()
            } else {
                0
            },
    {
        if now_nanos >= self.start_nanos {
            now_nanos - self.start_nanos
        } else {
            0
        }
    }
}

} // verus!
