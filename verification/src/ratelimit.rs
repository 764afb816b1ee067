//! Minimum spacing between outbound catalog requests. The limiter decides
//! how long the caller must still wait; performing the wait and reading the
//! clock belong to the caller.

use vstd::prelude::*;

verus! {

/// Enforces a minimum interval between consecutive requests to one catalog.
pub struct RateLimiter {
    /// When the previous request was released, in caller-supplied
    /// milliseconds; nothing before the first request.
    pub last: Option<u64>,
    /// The minimum spacing, in milliseconds.
    pub interval_ms: u64,
}

/// How long a caller at time `now_ms` must still wait.
pub open spec fn wait_needed(last: Option<u64>, interval_ms: u64, now_ms: u64) -> u64 {
    match last {
        None => 0u64,
        Some(l) => if now_ms - l >= interval_ms {
            0u64
        } else {
            (interval_ms - (now_ms - l)) as u64
        },
    }
}

impl RateLimiter {
    /// A fresh limiter: the first call never waits.
    pub fn new(interval_ms: u64) -> (r: Self)
        ensures
            r.last is None,
            r.interval_ms == interval_ms,
    {
        RateLimiter { last: None, interval_ms }
    }

    /// How long to sleep before sending, given the current time.
    pub fn wait_ms(&self, now_ms: u64) -> (r: u64)
        requires
            self.last matches Some(l) ==> l <= now_ms,
        ensures
            r == wait_needed(self.last, self.interval_ms, now_ms),
    {
        match self.last {
            None => 0,
            Some(l) => {
                let elapsed = now_ms - l;
                if elapsed >= self.interval_ms {
                    0
                } else {
                    self.interval_ms - elapsed
                }
            },
        }
    }

    /// Note that a request was just released, at the given time.
    pub fn mark(&mut self, now_ms: u64)
        ensures
            final(self).last == Some(now_ms),
            final(self).interval_ms == old(self).interval_ms,
    {
        self.last = Some(now_ms);
    }
}

/// After waiting the prescribed time and marking the release, the spacing
/// from the previous release is at least the interval.
pub proof fn lemma_spacing(limiter: RateLimiter, now_ms: u64, release_ms: u64)
    requires
        limiter.last matches Some(l) ==> l <= now_ms,
        release_ms >= now_ms + wait_needed(limiter.last, limiter.interval_ms, now_ms),
    ensures
        limiter.last matches Some(l) ==> release_ms >= l + limiter.interval_ms,
{
}

} // verus!
