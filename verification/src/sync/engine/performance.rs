//! Performance records of mailbox providers.
//!
//! The average response time of a record is an exponentially weighted moving
//! average: after an interaction that took `r` ms, the average `a` becomes
//! `(0.7 a + 0.3 r)` in floating point, cut to whole milliseconds. That step
//! is floating point, which this library does not hold: the functions that
//! record an interaction take the new average from their caller.
use vstd::prelude::*;

verus! {

/// The number of consecutive failures after which a mailbox is forgotten.
pub const MAX_CONSECUTIVE_FAILURES: u32 = 3;

/// The number of failures within the failure window that gets a mailbox
/// forgotten.
pub const MAX_FAILURES_IN_WINDOW: u32 = 5;

/// The length (seconds) of the failure window.
pub const FAILURE_WINDOW_SECONDS: u64 = 60;

/// The response time (ms) assumed for a mailbox without measurements.
pub const DEFAULT_RESPONSE_TIME_MS: u64 = 1000;

/// The times of the most recent failures of a mailbox, newest first; `None`
/// where fewer failures happened. Five are kept: enough to tell whether five
/// failures fell inside the failure window.
#[derive(Clone, Copy, Debug)]
pub struct RecentFailures {
    pub t0: Option<u64>,
    pub t1: Option<u64>,
    pub t2: Option<u64>,
    pub t3: Option<u64>,
    pub t4: Option<u64>,
}

/// 1 when failure time `t` lies within the failure window before `now`
/// (whole seconds since it, counting a time after `now` as 0), else 0.
pub open spec fn in_window(t: Option<u64>, now: u64) -> nat {
    match t {
        Some(t) => if (if now >= t { (now - t) / 1000 } else { 0 }) <= FAILURE_WINDOW_SECONDS {
            1
        } else {
            0
        },
        None => 0,
    }
}

impl RecentFailures {
    /// No failure yet.
    pub open spec fn spec_none() -> RecentFailures {
        RecentFailures { t0: None, t1: None, t2: None, t3: None, t4: None }
    }

    /// The kept times after a failure at `now`: `now` is the newest, and the
    /// oldest kept time drops out.
    pub open spec fn after_failure(self, now: u64) -> RecentFailures {
        RecentFailures { t0: Some(now), t1: self.t0, t2: self.t1, t3: self.t2, t4: self.t3 }
    }

    /// How many of the kept failures lie within the failure window before `now`.
    pub open spec fn count_in_window(self, now: u64) -> nat {
        in_window(self.t0, now) + in_window(self.t1, now) + in_window(self.t2, now) + in_window(self.t3, now)
            + in_window(self.t4, now)
    }
}

/// Whether failure time `t` lies within the failure window before `now`.
fn failure_in_window(t: Option<u64>, now: u64) -> (r: u64)
    ensures
        r == in_window(t, now),
{
    match t {
        Some(t) => if now.saturating_sub(t) / 1000 <= FAILURE_WINDOW_SECONDS {
            1
        } else {
            0
        },
        None => 0,
    }
}

impl RecentFailures {
    /// How many of the kept failures lie within the failure window before
    /// clock reading `now`.
    pub fn in_window_at(&self, now: u64) -> (n: u64)
        ensures
            n == self.count_in_window(now),
    {
        failure_in_window(self.t0, now) + failure_in_window(self.t1, now) + failure_in_window(self.t2, now)
            + failure_in_window(self.t3, now) + failure_in_window(self.t4, now)
    }
}

/// Performance record of a mailbox provider. Times are clock readings and
/// durations milliseconds.
#[derive(Clone, Copy, Debug)]
pub struct MailboxPerformance {
    /// The number of successful interactions.
    pub success_count: u32,
    /// The number of failed interactions.
    pub failure_count: u32,
    /// The number of failures since the last success.
    pub consecutive_failures: u32,
    /// When the last success happened.
    pub last_success: Option<u64>,
    /// When the last failure happened.
    pub last_failure: Option<u64>,
    /// The exponentially weighted moving average of the response time (ms).
    pub avg_response_time: u64,
    /// The times of the most recent failures.
    pub recent_failures: RecentFailures,
}

impl MailboxPerformance {
    /// The record of a mailbox without interactions.
    pub open spec fn spec_new() -> MailboxPerformance {
        MailboxPerformance {
            success_count: 0,
            failure_count: 0,
            consecutive_failures: 0,
            last_success: None,
            last_failure: None,
            avg_response_time: DEFAULT_RESPONSE_TIME_MS,
            recent_failures: RecentFailures::spec_none(),
        }
    }

    /// A record without interactions, with a response time of one second.
    pub fn new() -> (p: Self)
        ensures
            p == Self::spec_new(),
    {
        MailboxPerformance {
            success_count: 0,
            failure_count: 0,
            consecutive_failures: 0,
            last_success: None,
            last_failure: None,
            avg_response_time: DEFAULT_RESPONSE_TIME_MS,
            recent_failures: RecentFailures { t0: None, t1: None, t2: None, t3: None, t4: None },
        }
    }

    /// The counters can take one more interaction.
    pub open spec fn can_count(&self) -> bool {
        &&& self.success_count + self.failure_count < u32::MAX
        &&& self.consecutive_failures < u32::MAX
    }

    /// The record after an interaction at `now` that succeeded or failed,
    /// with `average` as the new average response time: the counters move
    /// and a failure's time is kept.
    pub open spec fn after_interaction(self, success: bool, average: u64, now: u64) -> MailboxPerformance {
        if success {
            MailboxPerformance {
                success_count: (self.success_count + 1) as u32,
                consecutive_failures: 0,
                last_success: Some(now),
                avg_response_time: average,
                ..self
            }
        } else {
            MailboxPerformance {
                failure_count: (self.failure_count + 1) as u32,
                consecutive_failures: (self.consecutive_failures + 1) as u32,
                last_failure: Some(now),
                recent_failures: self.recent_failures.after_failure(now),
                avg_response_time: average,
                ..self
            }
        }
    }

    /// Counts an interaction at `now` that succeeded or failed, with
    /// `average` as the new average response time.
    ///
    /// The average moves 30% of the way from the old one to the interaction's
    /// response time, weighted in floating point; the caller computes it (see
    /// the module's documentation) and this record keeps it.
    pub fn record_interaction(&mut self, success: bool, average: u64, now: u64)
        requires
            old(self).can_count(),
        ensures
            *final(self) == old(self).after_interaction(success, average, now),
    {
        if success {
            self.success_count = self.success_count + 1;
            self.consecutive_failures = 0;
            self.last_success = Some(now);
        } else {
            self.failure_count = self.failure_count + 1;
            self.consecutive_failures = self.consecutive_failures + 1;
            self.last_failure = Some(now);
            let r = self.recent_failures;
            self.recent_failures = RecentFailures { t0: Some(now), t1: r.t0, t2: r.t1, t3: r.t2, t4: r.t3 };
        }
        self.avg_response_time = average;
    }
}

} // verus!
