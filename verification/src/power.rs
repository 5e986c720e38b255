//! Suspend/resume detection from the gap between monotonic readings,
//! with host uptime as the second, independent signal.

use vstd::prelude::*;

verus! {

/// One observation of the host's power state.
#[derive(Debug, Clone)]
pub struct PowerState {
    /// The host has just come back from suspend (or rebooted).
    pub just_resumed: bool,
    /// Monotonic time since the previous check.
    pub time_gap_ms: u64,
    /// The session is idle (screen locked); informational only.
    pub is_idle: bool,
    /// Host uptime at this check.
    pub uptime_secs: u64,
}

/// The detector's baseline between checks.
#[derive(Debug, Clone)]
pub struct PowerStateTracker {
    pub last_check_ms: u64,
    pub last_uptime: u64,
    pub expected_interval_ms: u64,
    /// A gap this many times the expected interval reads as a resume.
    pub resume_threshold_factor: u64,
}

impl PowerStateTracker {
    /// A fresh baseline at the given clock readings.
    pub fn new(expected_interval_ms: u64, now_ms: u64, uptime_secs: u64) -> (r: PowerStateTracker)
        ensures
            r.last_check_ms == now_ms,
            r.last_uptime == uptime_secs,
            r.expected_interval_ms == expected_interval_ms,
            r.resume_threshold_factor == 3,
    {
        PowerStateTracker {
            last_check_ms: now_ms,
            last_uptime: uptime_secs,
            expected_interval_ms,
            resume_threshold_factor: 3,
        }
    }

    /// Reads the power state: a resume is a monotonic gap beyond the
    /// threshold, or an uptime that fell back by more than ten
    /// seconds (the host rebooted). The baseline moves to now.
    pub fn check(&mut self, now_ms: u64, uptime_secs: u64, is_idle: bool) -> (r: PowerState)
        requires
            old(self).last_check_ms <= now_ms,
            old(self).expected_interval_ms * old(self).resume_threshold_factor <= u64::MAX,
        ensures
            r.time_gap_ms == now_ms - old(self).last_check_ms,
            r.just_resumed == (now_ms - old(self).last_check_ms > old(self).expected_interval_ms
                * old(self).resume_threshold_factor || uptime_secs < (if old(self).last_uptime
                >= 10 {
                old(self).last_uptime - 10
            } else {
                0
            })),
            r.is_idle == is_idle,
            r.uptime_secs == uptime_secs,
            *final(self) == (PowerStateTracker {
                last_check_ms: now_ms,
                last_uptime: uptime_secs,
                ..*old(self)
            }),
    {
        let elapsed_ms = now_ms - self.last_check_ms;
        let threshold = self.expected_interval_ms * self.resume_threshold_factor;
        let just_resumed = elapsed_ms > threshold;
        let floor = if self.last_uptime >= 10 {
            self.last_uptime - 10
        } else {
            0
        };
        let rebooted = uptime_secs < floor;
        self.last_check_ms = now_ms;
        self.last_uptime = uptime_secs;
        PowerState { just_resumed: just_resumed || rebooted, time_gap_ms: elapsed_ms, is_idle, uptime_secs }
    }

    /// Moves the baseline to now, so a handled resume does not fire
    /// again on the next check.
    pub fn reset_baseline(&mut self, now_ms: u64, uptime_secs: u64)
        ensures
            *final(self) == (PowerStateTracker {
                last_check_ms: now_ms,
                last_uptime: uptime_secs,
                ..*old(self)
            }),
    {
        self.last_check_ms = now_ms;
        self.last_uptime = uptime_secs;
    }
}

} // verus!
