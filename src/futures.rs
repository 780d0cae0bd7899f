use vstd::prelude::*;

verus! {

/// A one-shot timer. Times are nanoseconds on a monotonic clock that the
/// caller reads; `Timer` itself never reads a clock.
#[derive(Debug, Clone, Copy)]
pub struct Timer {
    end: u64,
}

/// What one poll of a [`Timer`] reports.
#[derive(Debug, Clone, Copy, PartialEq, Eq)]
pub enum TimerPoll {
    /// The deadline has been reached.
    Ready,
    /// The deadline lies this many nanoseconds ahead: the caller suspends and
    /// arranges a wake after that long.
    Pending(u64),
}

/// A timer that finishes `dur` nanoseconds after `now`.
pub fn sleep(now: u64, dur: u64) -> (t: Timer)
    requires
        now + dur <= u64::MAX,
    ensures
        t.deadline() == now + dur,
{
    Timer { end: now + dur }
}

impl Timer {
    /// The instant at which the timer finishes.
    pub closed spec fn deadline(&self) -> nat {
        self.end as nat
    }

    /// The instant at which the timer finishes.
    pub fn end(&self) -> (r: u64)
        ensures
            r == self.deadline(),
    {
        self.end
    }

    /// A poll at instant `now` reports `r`: finished once the deadline is
    /// reached, otherwise pending for exactly the time that is left.
    pub open spec fn polled(&self, now: u64, r: TimerPoll) -> bool {
        match r {
            TimerPoll::Ready => now >= self.deadline(),
            TimerPoll::Pending(left) => now < self.deadline() && now + left == self.deadline(),
        }
    }

    /// Polls the timer at instant `now` (see [`Timer::polled`]).
    pub fn poll(&self, now: u64) -> (r: TimerPoll)
        ensures
            self.polled(now, r),
    {
        if now < self.end {
            TimerPoll::Pending(self.end - now)
        } else {
            TimerPoll::Ready
        }
    }
}

} // verus!
