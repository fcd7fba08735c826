//! The fixed-rate tick driver's timing: how long one tick lasts for a
//! configured rate.  Running the loop itself — sleeping and calling the
//! tick work — happens outside the library.
use vstd::prelude::*;

verus! {

/// The timing of the fixed-rate tick loop.
#[derive(Debug, Clone, Copy, PartialEq, Eq, Structural)]
pub struct TickLoop {
    pub tick_millis: u32,
}

impl TickLoop {
    /// Computes the tick period for the given rate in ticks per second.
    pub fn new(tick_rate: u32) -> (r: TickLoop)
        requires
            tick_rate > 0,
        ensures
            r.tick_millis == 1000u32 / tick_rate,
    {
        TickLoop { tick_millis: 1000 / tick_rate }
    }

    /// The length of one tick in milliseconds.
    pub fn tick_millis(&self) -> (r: u32)
        ensures
            r == self.tick_millis,
    {
        self.tick_millis
    }
}

} // verus!
