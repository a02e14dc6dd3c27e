//! The retry policy for outward HTTP calls: a bounded number of
//! attempts, with the wait chosen by how the last attempt failed.

use vstd::prelude::*;

verus! {

/// What to do after a failed attempt.
#[derive(Debug, Clone, Copy, PartialEq, Eq, Structural)]
pub enum RetryPolicy {
    /// Give up and surface the error.
    ForwardError,
    /// Try again after the given wait, in milliseconds.
    WaitRetry(u64),
}

/// One failed attempt, reduced to what the decision reads.
#[derive(Debug, Clone, Copy, PartialEq, Eq, Structural)]
pub struct AttemptError {
    /// Did the attempt time out?
    pub is_timeout: bool,
    /// The HTTP status the error carries, when it carries one.
    pub status: Option<u16>,
}

/// The policy for one attempt outcome, attempts permitting: timeouts
/// and server errors retry after five seconds, client errors give up,
/// everything else retries after one second.
pub open spec fn attempt_policy(e: AttemptError) -> RetryPolicy {
    if e.is_timeout {
        RetryPolicy::WaitRetry(5000)
    } else {
        match e.status {
            Some(s) => if 400 <= s < 500 {
                RetryPolicy::ForwardError
            } else if 500 <= s < 600 {
                RetryPolicy::WaitRetry(5000)
            } else {
                RetryPolicy::WaitRetry(1000)
            },
            None => RetryPolicy::WaitRetry(1000),
        }
    }
}

/// An attempt counter deciding when an I/O action is retried.
pub struct IoHandler {
    /// How many attempts may fail before giving up.
    max_attempts: usize,
    /// How many attempts have failed.
    current_attempt: usize,
    /// A name for the action, carried for the caller's reporting.
    display_name: String,
}

impl IoHandler {
    /// How many attempts may fail before giving up.
    pub closed spec fn spec_max_attempts(&self) -> usize {
        self.max_attempts
    }

    /// How many attempts have failed so far.
    pub closed spec fn spec_current_attempt(&self) -> usize {
        self.current_attempt
    }

    /// The name carried for the caller's reporting.
    pub closed spec fn spec_display_name(&self) -> Seq<char> {
        self.display_name@
    }

    /// A handler that allows the given number of failed attempts.
    pub fn new(max_attempts: usize, display_name: String) -> (r: IoHandler)
        ensures
            r.spec_max_attempts() == max_attempts,
            r.spec_current_attempt() == 0,
            r.spec_display_name() == display_name@,
    {
        IoHandler { max_attempts, current_attempt: 0, display_name }
    }

    /// The name this handler reports under.
    pub fn display_name(&self) -> (r: &String)
        ensures
            r@ == self.spec_display_name(),
    {
        &self.display_name
    }

    /// Counts the failed attempt and decides: give up once the allowed
    /// attempts are used, otherwise retry as the failure kind asks.
    pub fn handle(&mut self, e: AttemptError) -> (r: RetryPolicy)
        ensures
            final(self).spec_max_attempts() == old(self).spec_max_attempts(),
            final(self).spec_display_name() == old(self).spec_display_name(),
            final(self).spec_current_attempt() as int == (
                if old(self).spec_current_attempt() == usize::MAX {
                    usize::MAX as int
                } else {
                    old(self).spec_current_attempt() + 1
                }
            ),
            r == (
                if final(self).spec_current_attempt() > old(self).spec_max_attempts() {
                    RetryPolicy::ForwardError
                } else {
                    attempt_policy(e)
                }
            ),
    {
        if self.current_attempt < usize::MAX {
            self.current_attempt = self.current_attempt + 1;
        }
        if self.current_attempt > self.max_attempts {
            return RetryPolicy::ForwardError;
        }
        if e.is_timeout {
            RetryPolicy::WaitRetry(5000)
        } else {
            match e.status {
                Some(s) => {
                    if 400 <= s && s < 500 {
                        RetryPolicy::ForwardError
                    } else if 500 <= s && s < 600 {
                        RetryPolicy::WaitRetry(5000)
                    } else {
                        RetryPolicy::WaitRetry(1000)
                    }
                },
                None => RetryPolicy::WaitRetry(1000),
            }
        }
    }
}

} // verus!
