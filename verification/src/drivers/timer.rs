use vstd::prelude::*;

verus! {

// Offsets of the system timer's registers.
pub const TIMER_CONTROL: usize = 0x00;
pub const TIMER_COUNT_LOW: usize = 0x04;
pub const TIMER_COMPARE_1: usize = 0x10;

/// The number of counter ticks between two timer interrupts.
pub const TIMER_INTERVAL: u32 = 20000;

/// The control value that acknowledges the interrupt of the first compare register.
pub const TIMER_CONTROL_MATCH_1: u32 = 2;

/// The system timer, which interrupts at a fixed interval to switch tasks.
pub struct SystemTimer;

impl SystemTimer {
    /// The compare value that makes the timer interrupt one interval after the counter's value
    /// `count`; the counter's low word wraps around, and so does the compare value.
    pub fn next_compare(count: u32) -> (r: u32)
        ensures
            r == (count as int + TIMER_INTERVAL as int) % 0x1_0000_0000,
    {
        let r = count.wrapping_add(TIMER_INTERVAL);
        r
    }
}

} // verus!
