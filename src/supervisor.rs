use vstd::prelude::*;

verus! {

/// How often an update is started, in seconds.
pub const UPDATE_PERIOD_SECS: u64 = 300;

/// How long an update may run before it counts as failed, in seconds.
pub const MAX_UPDATE_DURATION_SECS: u64 = 3600;

/// How long the game client runs before it is restarted, in seconds.
pub const STEAM_RESTART_PERIOD_SECS: u64 = 10800;

/// How long to pause after repeated update timeouts, in seconds.
pub const FAILURE_PAUSE_SECS: u64 = 300;

/// What the supervisor does after an update ran too long.
#[derive(Debug, Clone, Copy, PartialEq, Eq, Structural)]
pub enum TimeoutAction {
    /// Start the next update at once.
    Retry,
    /// Pause for `FAILURE_PAUSE_SECS`, then start the next update.
    PauseThenRetry,
    /// Shut the game client down and start it again.
    RestartSteam,
}

/// The supervisor's memory between updates.
#[derive(Debug)]
pub struct Supervisor {
    pub consecutive_update_failures: u64,
}

impl Supervisor {
    pub fn new() -> (r: Self)
        ensures
            r.consecutive_update_failures == 0,
    {
        Supervisor { consecutive_update_failures: 0 }
    }

    /// An update finished in `elapsed_secs`: the failure count starts over
    /// and the next update waits for the rest of the update period.
    pub fn on_update_finished(&mut self, elapsed_secs: u64) -> (sleep_secs: u64)
        ensures
            final(self).consecutive_update_failures == 0,
            sleep_secs == (if elapsed_secs < UPDATE_PERIOD_SECS {
                UPDATE_PERIOD_SECS - elapsed_secs
            } else {
                0
            }),
    {
        self.consecutive_update_failures = 0;
        if elapsed_secs < UPDATE_PERIOD_SECS {
            UPDATE_PERIOD_SECS - elapsed_secs
        } else {
            0
        }
    }

    /// An update ran too long. A first timeout is retried at once; after
    /// that every third one restarts the game client, keeping the count, and
    /// the others pause before retrying.
    pub fn on_update_timed_out(&mut self) -> (r: TimeoutAction)
        ensures
            old(self).consecutive_update_failures == 0 ==> r == TimeoutAction::Retry
                && final(self).consecutive_update_failures == 1,
            old(self).consecutive_update_failures != 0 && old(self).consecutive_update_failures % 3
                == 0 ==> r == TimeoutAction::RestartSteam && final(self).consecutive_update_failures
                == old(self).consecutive_update_failures,
            old(self).consecutive_update_failures % 3 != 0 ==> r == TimeoutAction::PauseThenRetry
                && final(self).consecutive_update_failures == old(self).consecutive_update_failures
                + 1,
    {
        let f = self.consecutive_update_failures;
        if f != 0 && f % 3 == 0 {
            return TimeoutAction::RestartSteam;
        }
        assert(u64::MAX % 3 == 0);
        self.consecutive_update_failures = f + 1;
        if f == 0 {
            TimeoutAction::Retry
        } else {
            TimeoutAction::PauseThenRetry
        }
    }

    /// Whether the game client has run long enough to be restarted.
    pub fn steam_session_over(session_secs: u64) -> (r: bool)
        ensures
            r == (session_secs >= STEAM_RESTART_PERIOD_SECS),
    {
        session_secs >= STEAM_RESTART_PERIOD_SECS
    }
}

} // verus!
