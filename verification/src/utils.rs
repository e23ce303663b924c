//! The clock reading and a simple count-based rate limiter.

use vstd::prelude::*;

verus! {

/// Relies on `std::time::SystemTime::now` (with `duration_since` and
/// `as_millis` converting the reading): the system clock in milliseconds.
/// Nothing is promised of the value.
#[verifier::external_body]
pub fn now_millis() -> u64 {
    std::time::SystemTime::now()
        .duration_since(std::time::UNIX_EPOCH)
        .map(|d| d.as_millis() as u64)
        .unwrap_or(0)
}

/// How long a caller past the limit should pause, judged from one clock
/// reading: the remainder of the interval since the window opened at
/// `last` (a backward-moving clock counts as no time passed), or no pause
/// at all once the window's span has fully elapsed.
pub open spec fn spec_rate_limit_pause(interval: u64, last: u64, now: u64) -> Option<u64> {
    let elapsed = (if now >= last {
        (now - last) as u64
    } else {
        0
    });
    if elapsed <= interval {
        Some((interval - elapsed) as u64)
    } else {
        None
    }
}

/// The over-limit decision for one clock reading.
pub fn rate_limit_pause(interval: u64, last: u64, now: u64) -> (r: Option<u64>)
    ensures
        r == spec_rate_limit_pause(interval, last, now),
{
    let elapsed: u64 = if now >= last {
        now - last
    } else {
        0
    };
    if elapsed <= interval {
        Some(interval - elapsed)
    } else {
        None
    }
}

/// Admits up to `limit` actions per `interval` milliseconds; past the
/// limit, `wait` tells the caller how long to pause before continuing.
#[derive(Debug)]
pub struct RateLimit {
    pub limit: usize,
    pub interval: u64,
    pub current: usize,
    pub last: u64,
    pub duration: u64,
}

impl RateLimit {
    pub fn new(limit: usize, interval: u64) -> (r: Self)
        ensures
            r.limit == limit,
            r.interval == interval,
            r.current == 0,
            r.duration == 0,
    {
        Self { limit, interval, current: 0, last: now_millis(), duration: 0 }
    }

    /// Count one action.  Under the limit the count advances and no pause
    /// is asked for.  At the limit the window resets, and the pause is
    /// exactly what `rate_limit_pause` decides for some clock reading:
    /// what is left of the interval, or nothing once it has fully passed.
    pub fn wait(&mut self) -> (r: Option<u64>)
        ensures
            final(self).limit == old(self).limit,
            final(self).interval == old(self).interval,
            old(self).current < old(self).limit ==> {
                &&& final(self).current == old(self).current + 1
                &&& final(self).last == old(self).last
                &&& final(self).duration == old(self).duration
                &&& r is None
            },
            old(self).current >= old(self).limit ==> {
                &&& final(self).current == 0
                &&& final(self).duration == 0
                &&& (r matches Some(d) ==> d <= old(self).interval)
                &&& exists|now: u64|
                    r == spec_rate_limit_pause(old(self).interval, old(self).last, now)
            },
    {
        if self.current < self.limit {
            self.current = self.current + 1;
            None
        } else {
            let now = now_millis();
            let r = rate_limit_pause(self.interval, self.last, now);
            proof {
                assert(r == spec_rate_limit_pause(old(self).interval, old(self).last, now));
            }
            self.reset();
            r
        }
    }

    pub fn reset(&mut self)
        ensures
            final(self).limit == old(self).limit,
            final(self).interval == old(self).interval,
            final(self).current == 0,
            final(self).duration == 0,
    {
        self.current = 0;
        self.last = now_millis();
        self.duration = 0;
    }
}

} // verus!
