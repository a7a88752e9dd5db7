//! Timer arithmetic; reading the clock and programming the next interrupt
//! are done by the kernel.
use vstd::prelude::*;

verus! {

/// Timer interrupts per second.
pub const TICKS_PER_SEC: usize = 100;

/// Milliseconds per second.
pub const MSEC_PER_SEC: usize = 1000;

/// Deadline of the next timer interrupt: one tick period after `now`, for a
/// clock of `clock_freq` Hz.
pub fn next_trigger(now: usize, clock_freq: usize) -> (r: usize)
    requires
        now + clock_freq / TICKS_PER_SEC <= usize::MAX,
    ensures
        r == now + clock_freq / TICKS_PER_SEC,
{
    now + clock_freq / TICKS_PER_SEC
}

/// Milliseconds elapsed after `ticks` ticks of a clock of `clock_freq` Hz;
/// the clock must run at 1 kHz or faster.
pub fn ticks_to_ms(ticks: usize, clock_freq: usize) -> (r: usize)
    requires
        clock_freq >= MSEC_PER_SEC,
    ensures
        r == ticks / (clock_freq / MSEC_PER_SEC),
{
    ticks / (clock_freq / MSEC_PER_SEC)
}

} // verus!
