use vstd::prelude::*;

verus! {

/// After this many failures in a row, the next one ends the loop.
pub const MAX_CONSECUTIVE_ERRORS: u64 = 5;

/// Delay after the first failure in a row; the `n`-th waits `n` times as long.
pub const ERROR_BACKOFF_BASE_MS: u64 = 100;

/// What to do after a failed send or receive.
#[derive(Clone, Copy, Debug, PartialEq, Eq, Structural)]
pub enum BackoffDecision {
    /// Wait this many milliseconds, then try again.
    RetryAfterMs(u64),
    /// Too many failures in a row: stop with the error.
    GiveUp,
}

/// The decision after the `count`-th failure in a row.
pub open spec fn failure_decision(count: nat) -> BackoffDecision {
    if count > MAX_CONSECUTIVE_ERRORS {
        BackoffDecision::GiveUp
    } else {
        BackoffDecision::RetryAfterMs((ERROR_BACKOFF_BASE_MS * count) as u64)
    }
}

/// Counts failures in a row of a loop that reads or writes a device or a
/// connection, and says how long to back off.
pub struct ErrorBackoff {
    pub consecutive_errors: u64,
}

impl ErrorBackoff {
    /// No failure yet.
    pub fn new() -> (b: Self)
        ensures
            b.consecutive_errors == 0,
    {
        ErrorBackoff { consecutive_errors: 0 }
    }

    /// A success ends the run of failures.
    pub fn record_success(&mut self)
        ensures
            final(self).consecutive_errors == 0,
    {
        self.consecutive_errors = 0;
    }

    /// Counts one more failure and decides what to do.
    pub fn record_failure(&mut self) -> (d: BackoffDecision)
        requires
            old(self).consecutive_errors < u64::MAX,
        ensures
            final(self).consecutive_errors == old(self).consecutive_errors + 1,
            d == failure_decision(final(self).consecutive_errors as nat),
    {
        self.consecutive_errors = self.consecutive_errors + 1;
        if self.consecutive_errors > MAX_CONSECUTIVE_ERRORS {
            BackoffDecision::GiveUp
        } else {
            BackoffDecision::RetryAfterMs(ERROR_BACKOFF_BASE_MS * self.consecutive_errors)
        }
    }
}

/// Each of the first five failures in a row is retried after a delay that
/// grows by the base delay each time; the sixth gives up.
pub proof fn lemma_backoff_schedule(count: nat)
    requires
        1 <= count,
    ensures
        count <= MAX_CONSECUTIVE_ERRORS ==> failure_decision(count) == BackoffDecision::RetryAfterMs(
            (100 * count) as u64,
        ),
        count > MAX_CONSECUTIVE_ERRORS ==> failure_decision(count) == BackoffDecision::GiveUp,
{
}

} // verus!
