//! Timing, button and display-flush decisions. The delays and the display
//! driver themselves belong to the board support code that calls these.
use vstd::prelude::*;

use crate::Event;

verus! {

/// Tick scheduling: a tick is due once `tick_interval_ms` have passed since
/// the last one.
pub struct Timer {
    last_tick_ms: u32,
    tick_interval_ms: u32,
}

impl Timer {
    /// The time of the last tick, in milliseconds.
    pub closed spec fn last_tick(&self) -> u32 {
        self.last_tick_ms
    }

    /// The interval between ticks, in milliseconds.
    pub closed spec fn interval(&self) -> u32 {
        self.tick_interval_ms
    }

    pub fn new(tick_interval_ms: u32) -> (t: Self)
        ensures
            t.last_tick() == 0,
            t.interval() == tick_interval_ms,
    {
        Self { last_tick_ms: 0, tick_interval_ms }
    }

    /// Check if it's time for the next tick based on the interval; if so,
    /// the tick is taken at `current_time_ms`.
    /// This is a simple implementation - in a real system you'd use hardware timers
    pub fn should_tick(&mut self, current_time_ms: u32) -> (due: bool)
        requires
            current_time_ms >= old(self).last_tick(),
        ensures
            due == (current_time_ms - old(self).last_tick() >= old(self).interval()),
            final(self).interval() == old(self).interval(),
            due ==> final(self).last_tick() == current_time_ms,
            !due ==> final(self).last_tick() == old(self).last_tick(),
    {
        if current_time_ms - self.last_tick_ms >= self.tick_interval_ms {
            self.last_tick_ms = current_time_ms;
            true
        } else {
            false
        }
    }

    /// Get the current tick interval
    pub fn tick_interval_ms(&self) -> (ms: u32)
        ensures
            ms == self.interval(),
    {
        self.tick_interval_ms
    }
}

/// Hardware abstraction for button input (placeholder for future implementation)
/// This will be used when a physical button is added
pub struct Button {}

impl Button {
    pub fn new() -> (b: Self) {
        // GPIO pin configuration will go here once a button is wired up
        Self {}
    }

    /// Check if button is pressed (placeholder implementation)
    /// Returns true if button press is detected
    pub fn is_pressed(&self) -> (pressed: bool)
        ensures
            !pressed,
    {
        false
    }

    /// Get button press event if one occurred
    /// Returns Some(ButtonPress) if a new press is detected, None otherwise
    pub fn check_press(&mut self) -> (e: Option<Event>)
        ensures
            e is None,
    {
        None
    }
}

impl Default for Button {
    fn default() -> (b: Self) {
        Self::new()
    }
}

/// How many times a display flush is tried.
pub const MAX_FLUSH_RETRIES: u8 = 3;

/// How long to wait between two flush attempts, in milliseconds.
pub const FLUSH_RETRY_DELAY_MS: u32 = 10;

/// What to do after a display flush attempt.
#[derive(Debug, Clone, Copy, PartialEq, Eq, Structural)]
pub enum FlushStep {
    /// Stop: whether the display was flushed.
    Done(bool),
    /// Wait this many milliseconds, then try again.
    RetryAfter(u32),
}

/// The flush retry policy: after attempt number `attempt` (counting from 1),
/// stop on success, wait and retry on failure while attempts are left, and
/// give up after the last one.
pub open spec fn flush_policy(attempt: int, flushed: bool) -> FlushStep {
    if flushed {
        FlushStep::Done(true)
    } else if attempt < MAX_FLUSH_RETRIES {
        FlushStep::RetryAfter(FLUSH_RETRY_DELAY_MS)
    } else {
        FlushStep::Done(false)
    }
}

/// Where a run of flush attempts ends, given the outcome of each attempt
/// from number `attempt` on: whether the display was flushed, and after how
/// many attempts in all.
pub open spec fn flush_run(outcomes: Seq<bool>, attempt: int) -> (bool, int)
    decreases MAX_FLUSH_RETRIES - attempt,
{
    if attempt < 1 || attempt > MAX_FLUSH_RETRIES || attempt > outcomes.len() {
        (false, attempt - 1)
    } else {
        match flush_policy(attempt, outcomes[attempt - 1]) {
            FlushStep::Done(ok) => (ok, attempt),
            FlushStep::RetryAfter(_) => flush_run(outcomes, attempt + 1),
        }
    }
}

/// A flush is tried at most three times, and it succeeds exactly when one
/// of those attempts does; it stops at the first that does.
pub proof fn law_flush_retries(outcomes: Seq<bool>)
    requires
        outcomes.len() >= MAX_FLUSH_RETRIES,
    ensures
        flush_run(outcomes, 1).0 == (outcomes[0] || outcomes[1] || outcomes[2]),
        1 <= flush_run(outcomes, 1).1 <= MAX_FLUSH_RETRIES,
        flush_run(outcomes, 1).0 ==> outcomes[flush_run(outcomes, 1).1 - 1],
{
    reveal_with_fuel(flush_run, 4);
}

/// One step of the flush retry policy.
pub fn flush_step(attempt: u8, flushed: bool) -> (s: FlushStep)
    requires
        1 <= attempt <= MAX_FLUSH_RETRIES,
    ensures
        s == flush_policy(attempt as int, flushed),
{
    if flushed {
        FlushStep::Done(true)
    } else if attempt < MAX_FLUSH_RETRIES {
        FlushStep::RetryAfter(FLUSH_RETRY_DELAY_MS)
    } else {
        FlushStep::Done(false)
    }
}

} // verus!
