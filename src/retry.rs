//! The retry policy of the placement RPC wrappers: how long to sleep after a
//! failed attempt, and when to give up and surface the error.

use vstd::prelude::*;

verus! {

/// How many times a failed call is retried.
pub const RETRY_TIMES: u64 = 5;

/// The longest sleep between two attempts, in seconds.
pub const MAX_RETRY_SLEEP_SECONDS: u64 = 10;

/// How many times a failed call is retried.
pub fn retry_times() -> (r: u64)
    ensures
        r == RETRY_TIMES,
{
    RETRY_TIMES
}

pub open spec fn spec_sleep_time(times: int) -> int {
    if times < MAX_RETRY_SLEEP_SECONDS {
        times
    } else {
        MAX_RETRY_SLEEP_SECONDS as int
    }
}

/// Seconds to sleep after the `times`-th failed attempt: `times`, capped.
pub fn retry_sleep_time(times: u64) -> (r: u64)
    ensures
        r == spec_sleep_time(times as int),
{
    if times < MAX_RETRY_SLEEP_SECONDS {
        times
    } else {
        MAX_RETRY_SLEEP_SECONDS
    }
}

/// The sleep never shrinks as the failures add up.
pub proof fn lemma_sleep_time_monotonic(a: int, b: int)
    requires
        a <= b,
    ensures
        spec_sleep_time(a) <= spec_sleep_time(b),
{
}

/// What a wrapper does after a failed attempt.
pub enum RetryAction {
    /// Sleep this many seconds, then call again.
    Sleep(u64),
    /// Give up and surface the error.
    Fail,
    /// The caller cancelled: stop without sleeping.
    Cancelled,
}

/// The number of attempts a wrapper makes when the attempts, in order, succeed
/// or fail as `results` says, having already seen `times` failures.
pub open spec fn attempts_from(results: Seq<bool>, times: int) -> int
    decreases results.len(),
{
    if results.len() == 0 {
        0
    } else if results[0] {
        1
    } else if times + 1 > RETRY_TIMES {
        1
    } else {
        1 + attempts_from(results.drop_first(), times + 1)
    }
}

/// A wrapper makes at most `retry_times() + 1` attempts, whatever the calls
/// return.
pub proof fn lemma_attempts_bounded(results: Seq<bool>, times: int)
    requires
        0 <= times <= RETRY_TIMES,
    ensures
        attempts_from(results, times) <= RETRY_TIMES + 1 - times,
    decreases results.len(),
{
    if results.len() > 0 && !results[0] && times + 1 <= RETRY_TIMES {
        lemma_attempts_bounded(results.drop_first(), times + 1);
    }
}

/// The failures that one call of a wrapper has seen so far.
pub struct RetryState {
    pub times: u64,
}

impl RetryState {
    pub fn new() -> (r: RetryState)
        ensures
            r.times == 0,
    {
        RetryState { times: 0 }
    }

    /// An attempt failed. Gives up once the failures exceed `retry_times()`;
    /// otherwise, unless the caller cancelled, sleeps `retry_sleep_time` of
    /// the failures so far.
    pub fn on_error(&mut self, cancelled: bool) -> (r: RetryAction)
        requires
            old(self).times <= RETRY_TIMES,
        ensures
            final(self).times == old(self).times + 1,
            old(self).times + 1 > RETRY_TIMES ==> r is Fail,
            old(self).times + 1 <= RETRY_TIMES && cancelled ==> r is Cancelled,
            old(self).times + 1 <= RETRY_TIMES && !cancelled ==> r == RetryAction::Sleep(
                spec_sleep_time(old(self).times + 1) as u64,
            ),
    {
        self.times = self.times + 1;
        if self.times > retry_times() {
            RetryAction::Fail
        } else if cancelled {
            RetryAction::Cancelled
        } else {
            RetryAction::Sleep(retry_sleep_time(self.times))
        }
    }
}

} // verus!
