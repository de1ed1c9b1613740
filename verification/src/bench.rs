//! Frame-timing counters for the main loop: each stage of an iteration adds
//! the time since the previous stage to its own accumulator.
//!
//! Timestamps come from the monotonic clock and are opaque; everything the
//! library computes from them (nanosecond sums, iteration counts, the
//! report cadence) is plain verified arithmetic. Sums saturate instead of
//! overflowing.

use vstd::prelude::*;

use std::time::{Duration, Instant};

verus! {

#[verifier::external_type_specification]
#[verifier::external_body]
pub struct ExInstant(Instant);

/// Relies on std::time::Instant::now: an opaque reading of the monotonic
/// clock. Nothing is assumed of the value.
pub assume_specification[ Instant::now ]() -> Instant;

/// Relies on std::time::Instant::elapsed: the time since the reading was
/// taken. Nothing is assumed of the value.
pub assume_specification[ Instant::elapsed ](i: &Instant) -> Duration;

/// Relies on std::time::Duration::as_nanos: the duration in nanoseconds.
/// Nothing is assumed of the value.
pub assume_specification[ Duration::as_nanos ](d: &Duration) -> u128;

/// A saturating sum: the mathematical sum where it fits, `u64::MAX` where
/// it does not.
pub open spec fn accumulated(sum: int, delta: int) -> int {
    if sum + delta <= u64::MAX {
        sum + delta
    } else {
        u64::MAX as int
    }
}

/// Adds a delta to a counter, saturating at `u64::MAX`.
pub fn accumulate(sum: u64, delta: u64) -> (r: u64)
    ensures
        r == accumulated(sum as int, delta as int),
        r >= sum,
{
    if delta <= u64::MAX - sum {
        sum + delta
    } else {
        u64::MAX
    }
}

/// The nanoseconds elapsed since a clock reading, saturated into a `u64`.
fn elapsed_nanos(since: &Instant) -> u64 {
    let d = since.elapsed();
    let n = d.as_nanos();
    if n > u64::MAX as u128 {
        u64::MAX
    } else {
        n as u64
    }
}

/// Per-stage timing sums over the loop iterations since the last reset.
pub struct Bench {
    pub iteration_nr: u32,
    pub report_every_iterations: u32,
    pub loop_started: Instant,
    pub last_update: Instant,
    pub sum_events_clear: u64,
    pub sum_positions_update: u64,
    pub sum_collisions_solve: u64,
    pub sum_vb_update: u64,
    pub sum_rendering: u64,
    pub sum_loop_time: u64,
}

impl Bench {
    /// The stage sums and the iteration counter, all of which start at and
    /// return to zero on a reset.
    pub open spec fn counters(self) -> (u32, u64, u64, u64, u64, u64, u64) {
        (
            self.iteration_nr,
            self.sum_events_clear,
            self.sum_positions_update,
            self.sum_collisions_solve,
            self.sum_vb_update,
            self.sum_rendering,
            self.sum_loop_time,
        )
    }

    /// Fresh counters, reporting every `report_every_iterations` loops.
    pub fn init(report_every_iterations: u32) -> (r: Bench)
        ensures
            r.counters() == (0u32, 0u64, 0u64, 0u64, 0u64, 0u64, 0u64),
            r.report_every_iterations == report_every_iterations,
    {
        let now = Instant::now();
        Bench {
            iteration_nr: 0,
            report_every_iterations,
            loop_started: now,
            last_update: now,
            sum_events_clear: 0,
            sum_positions_update: 0,
            sum_collisions_solve: 0,
            sum_vb_update: 0,
            sum_rendering: 0,
            sum_loop_time: 0,
        }
    }

    /// Zeroes every counter, keeping the report cadence.
    pub fn reset(&mut self)
        ensures
            final(self).counters() == (0u32, 0u64, 0u64, 0u64, 0u64, 0u64, 0u64),
            final(self).report_every_iterations == old(self).report_every_iterations,
    {
        self.iteration_nr = 0;
        self.sum_events_clear = 0;
        self.sum_positions_update = 0;
        self.sum_collisions_solve = 0;
        self.sum_vb_update = 0;
        self.sum_rendering = 0;
        self.sum_loop_time = 0;
    }

    /// Marks the start of a loop iteration.
    pub fn loop_started(&mut self)
        requires
            old(self).iteration_nr < u32::MAX,
        ensures
            final(self).iteration_nr == old(self).iteration_nr + 1,
            final(self).report_every_iterations == old(self).report_every_iterations,
            final(self).sum_events_clear == old(self).sum_events_clear,
            final(self).sum_positions_update == old(self).sum_positions_update,
            final(self).sum_collisions_solve == old(self).sum_collisions_solve,
            final(self).sum_vb_update == old(self).sum_vb_update,
            final(self).sum_rendering == old(self).sum_rendering,
            final(self).sum_loop_time == old(self).sum_loop_time,
    {
        self.iteration_nr = self.iteration_nr + 1;
        let now = Instant::now();
        self.loop_started = now;
        self.last_update = now;
    }

    /// Adds the whole iteration's duration to the loop-time sum.
    pub fn loop_ended(&mut self)
        ensures
            final(self).iteration_nr == old(self).iteration_nr,
            final(self).report_every_iterations == old(self).report_every_iterations,
            final(self).sum_events_clear == old(self).sum_events_clear,
            final(self).sum_positions_update == old(self).sum_positions_update,
            final(self).sum_collisions_solve == old(self).sum_collisions_solve,
            final(self).sum_vb_update == old(self).sum_vb_update,
            final(self).sum_rendering == old(self).sum_rendering,
            final(self).sum_loop_time >= old(self).sum_loop_time,
    {
        let d = elapsed_nanos(&self.loop_started);
        self.sum_loop_time = accumulate(self.sum_loop_time, d);
    }

    /// Charges the time since the last stage to event handling.
    pub fn events_cleared(&mut self)
        ensures
            final(self).iteration_nr == old(self).iteration_nr,
            final(self).report_every_iterations == old(self).report_every_iterations,
            final(self).sum_events_clear >= old(self).sum_events_clear,
            final(self).sum_positions_update == old(self).sum_positions_update,
            final(self).sum_collisions_solve == old(self).sum_collisions_solve,
            final(self).sum_vb_update == old(self).sum_vb_update,
            final(self).sum_rendering == old(self).sum_rendering,
            final(self).sum_loop_time == old(self).sum_loop_time,
    {
        let d = elapsed_nanos(&self.last_update);
        self.sum_events_clear = accumulate(self.sum_events_clear, d);
        self.last_update = Instant::now();
    }

    /// Charges the time since the last stage to integration.
    pub fn positions_updated(&mut self)
        ensures
            final(self).iteration_nr == old(self).iteration_nr,
            final(self).report_every_iterations == old(self).report_every_iterations,
            final(self).sum_events_clear == old(self).sum_events_clear,
            final(self).sum_positions_update >= old(self).sum_positions_update,
            final(self).sum_collisions_solve == old(self).sum_collisions_solve,
            final(self).sum_vb_update == old(self).sum_vb_update,
            final(self).sum_rendering == old(self).sum_rendering,
            final(self).sum_loop_time == old(self).sum_loop_time,
    {
        let d = elapsed_nanos(&self.last_update);
        self.sum_positions_update = accumulate(self.sum_positions_update, d);
        self.last_update = Instant::now();
    }

    /// Charges the time since the last stage to collision resolution.
    pub fn collisions_solved(&mut self)
        ensures
            final(self).iteration_nr == old(self).iteration_nr,
            final(self).report_every_iterations == old(self).report_every_iterations,
            final(self).sum_events_clear == old(self).sum_events_clear,
            final(self).sum_positions_update == old(self).sum_positions_update,
            final(self).sum_collisions_solve >= old(self).sum_collisions_solve,
            final(self).sum_vb_update == old(self).sum_vb_update,
            final(self).sum_rendering == old(self).sum_rendering,
            final(self).sum_loop_time == old(self).sum_loop_time,
    {
        let d = elapsed_nanos(&self.last_update);
        self.sum_collisions_solve = accumulate(self.sum_collisions_solve, d);
        self.last_update = Instant::now();
    }

    /// Charges the time since the last stage to vertex-buffer updates.
    pub fn vb_updated(&mut self)
        ensures
            final(self).iteration_nr == old(self).iteration_nr,
            final(self).report_every_iterations == old(self).report_every_iterations,
            final(self).sum_events_clear == old(self).sum_events_clear,
            final(self).sum_positions_update == old(self).sum_positions_update,
            final(self).sum_collisions_solve == old(self).sum_collisions_solve,
            final(self).sum_vb_update >= old(self).sum_vb_update,
            final(self).sum_rendering == old(self).sum_rendering,
            final(self).sum_loop_time == old(self).sum_loop_time,
    {
        let d = elapsed_nanos(&self.last_update);
        self.sum_vb_update = accumulate(self.sum_vb_update, d);
        self.last_update = Instant::now();
    }

    /// Charges the time since the last stage to rendering.
    pub fn rendering_finished(&mut self)
        ensures
            final(self).iteration_nr == old(self).iteration_nr,
            final(self).report_every_iterations == old(self).report_every_iterations,
            final(self).sum_events_clear == old(self).sum_events_clear,
            final(self).sum_positions_update == old(self).sum_positions_update,
            final(self).sum_collisions_solve == old(self).sum_collisions_solve,
            final(self).sum_vb_update == old(self).sum_vb_update,
            final(self).sum_rendering >= old(self).sum_rendering,
            final(self).sum_loop_time == old(self).sum_loop_time,
    {
        let d = elapsed_nanos(&self.last_update);
        self.sum_rendering = accumulate(self.sum_rendering, d);
        self.last_update = Instant::now();
    }

    /// Whether a report is due this iteration: every
    /// `report_every_iterations` loops.
    pub fn report_due(&self) -> (r: bool)
        requires
            self.report_every_iterations > 0,
        ensures
            r == (self.iteration_nr % self.report_every_iterations == 0),
    {
        self.iteration_nr % self.report_every_iterations == 0
    }

    /// The average of a stage sum over the iterations so far, in
    /// nanoseconds; zero before the first iteration.
    pub fn average_nanos(&self, sum: u64) -> (r: u64)
        ensures
            self.iteration_nr > 0 ==> r == sum as int / self.iteration_nr as int,
            self.iteration_nr == 0 ==> r == 0,
    {
        if self.iteration_nr == 0 {
            0
        } else {
            sum / (self.iteration_nr as u64)
        }
    }
}

} // verus!
