//! A retry strategy: a fixed number of attempts with a fixed pause between
//! them.
use vstd::prelude::*;
use std::time::Duration;
use crate::exception::Exception;

verus! {

/// What to do about a failed attempt.
#[derive(Debug)]
pub enum RetryDecision {
    /// Wait for the given time, then try again.
    WaitRetry(Duration),
    /// Give up and pass the failure on.
    ForwardError(Exception),
}

/// Retries a transient failure after `delay`, until `max_attempts` attempts
/// have been made.
pub struct FixedCountWithDelayStrategy {
    pub max_attempts: usize,
    pub delay: Duration,
}

impl FixedCountWithDelayStrategy {
    /// A strategy of at most `max_attempts` attempts, `delay` apart.
    pub fn new(max_attempts: usize, delay: Duration) -> (strategy: FixedCountWithDelayStrategy)
        ensures
            strategy.max_attempts == max_attempts,
            strategy.delay == delay,
    {
        FixedCountWithDelayStrategy { max_attempts, delay }
    }

    /// The decision the strategy makes on failure `e` of attempt number
    /// `attempt`: a transient failure is retried while attempts are left, and
    /// every other failure is passed on.
    pub open spec fn decides(&self, attempt: usize, e: Exception) -> RetryDecision {
        if attempt >= self.max_attempts {
            RetryDecision::ForwardError(e)
        } else {
            match e {
                Exception::Retryable(_) => RetryDecision::WaitRetry(self.delay),
                Exception::NonRetryable(_) => RetryDecision::ForwardError(e),
            }
        }
    }

    /// Decides what to do about failure `e` of attempt number `attempt`.
    pub fn handle(&mut self, attempt: usize, e: Exception) -> (decision: RetryDecision)
        ensures
            decision == old(self).decides(attempt, e),
            final(self).max_attempts == old(self).max_attempts,
            final(self).delay == old(self).delay,
    {
        if attempt >= self.max_attempts {
            return RetryDecision::ForwardError(e);
        }
        match e {
            Exception::Retryable(_) => RetryDecision::WaitRetry(self.delay),
            Exception::NonRetryable(_) => RetryDecision::ForwardError(e),
        }
    }
}

} // verus!
