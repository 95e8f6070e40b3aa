//! Scheduling state of the centre-circle measurement node: one detection
//! pass per capture request or tuning tick, rate limited by a configured
//! cooldown.  The node itself drives the vision pipeline; what is
//! verified here is the gating decision and the bookkeeping around it.

use vstd::prelude::*;

verus! {

/// Orientation tag of a reference line on the field.
pub enum Direction {
    PositiveX,
    PositiveY,
}

/// Construction-time context of the measurement node; the surrounding
/// framework fills it, and it carries nothing the logic reads.
pub struct CreationContext {}

/// Detection-node state: when the last pass ran, as milliseconds on the
/// caller's monotonic clock.
pub struct CalibrationMeasurementDetection {
    pub last_processed_ms: u64,
}

impl CalibrationMeasurementDetection {
    pub fn new(_context: CreationContext) -> (r: CalibrationMeasurementDetection)
        ensures
            r.last_processed_ms == 0,
    {
        CalibrationMeasurementDetection { last_processed_ms: 0 }
    }

    /// Should a detection pass run now?  Only when the cooldown has
    /// elapsed and either a capture was requested or tuning mode keeps
    /// the detector running every cycle.
    pub fn should_process(
        &self,
        now_ms: u64,
        run_next_cycle_after_ms: u64,
        capture_command_received: bool,
        tuning_mode: bool,
    ) -> (r: bool)
        requires
            self.last_processed_ms <= now_ms,
        ensures
            r == (now_ms - self.last_processed_ms >= run_next_cycle_after_ms && (
            capture_command_received || tuning_mode)),
    {
        let timeout_complete = now_ms - self.last_processed_ms >= run_next_cycle_after_ms;
        timeout_complete && (capture_command_received || tuning_mode)
    }

    /// Record that a pass ran, restarting the cooldown.
    pub fn mark_processed(&mut self, now_ms: u64)
        ensures
            final(self).last_processed_ms == now_ms,
    {
        self.last_processed_ms = now_ms;
    }
}

} // verus!
