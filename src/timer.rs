//! A timer computation: waits until a deadline on a monotonic clock.
//!
//! Time is a `u64` count of nanoseconds on a monotonic clock; the caller
//! reads the clock and hands the reading in.
use vstd::prelude::*;

verus! {

/// The value a timer resolves to once its deadline has passed.
pub const DONE: &'static str = "done";

/// The result of polling a [`Timer`].
pub enum TimerPoll {
    /// The deadline has passed; the timer resolved to [`DONE`].
    Ready(&'static str),
    /// The deadline has not passed, and this poll arranged a background
    /// waiter that must invoke the task's waker after the given delay.
    Arm(u64),
    /// The deadline has not passed; a waiter is already arranged.
    Pending,
}

/// A timer with a deadline, in one of two states: waiting or fired.
pub struct Timer {
    deadline: u64,
    armed: bool,
    fired: bool,
}

/// The abstract state of a timer.
pub struct TimerState {
    pub deadline: u64,
    /// A background waiter has been arranged for the current wait.
    pub armed: bool,
    /// The timer has resolved; it must not be polled again.
    pub fired: bool,
}

/// What a poll at time `now` returns from state `s`.
pub open spec fn poll_result(s: TimerState, now: u64) -> TimerPoll {
    if now >= s.deadline {
        TimerPoll::Ready(DONE)
    } else if !s.armed {
        TimerPoll::Arm((s.deadline - now) as u64)
    } else {
        TimerPoll::Pending
    }
}

/// The state after a poll at time `now` from state `s`.
pub open spec fn poll_next(s: TimerState, now: u64) -> TimerState {
    if now >= s.deadline {
        TimerState { fired: true, ..s }
    } else {
        TimerState { armed: true, ..s }
    }
}

/// Before its deadline a timer stays pending and arranges one waiter per
/// wait, due exactly at the deadline; it resolves, to [`DONE`], only at or
/// after the deadline.
pub proof fn lemma_timer_waits_once(s: TimerState, now: u64, later: u64)
    requires
        !s.fired,
    ensures
        poll_result(s, now) is Ready <==> now >= s.deadline,
        poll_result(s, now) matches TimerPoll::Ready(m) ==> m == DONE,
        poll_result(s, now) matches TimerPoll::Arm(d) ==> !s.armed && now + d == s.deadline,
        now < s.deadline ==> poll_next(s, now).armed && !poll_next(s, now).fired,
        now < s.deadline && later < s.deadline ==> poll_result(poll_next(s, now), later)
            == TimerPoll::Pending,
{
}

impl View for Timer {
    type V = TimerState;

    closed spec fn view(&self) -> TimerState {
        TimerState { deadline: self.deadline, armed: self.armed, fired: self.fired }
    }
}

impl Timer {
    /// A timer waiting for `deadline`, with no waiter arranged yet.
    pub fn new(deadline: u64) -> (t: Timer)
        ensures
            t@ == (TimerState { deadline, armed: false, fired: false }),
    {
        Timer { deadline, armed: false, fired: false }
    }

    /// Advances the timer given the current time.
    ///
    /// At or after the deadline the timer fires and resolves to [`DONE`].
    /// Before it, the first poll asks for a waiter that wakes the task after
    /// exactly the remaining time; later polls ask for none.
    pub fn poll(&mut self, now: u64) -> (r: TimerPoll)
        requires
            !old(self)@.fired,
        ensures
            r == poll_result(old(self)@, now),
            final(self)@ == poll_next(old(self)@, now),
    {
        if now >= self.deadline {
            self.fired = true;
            TimerPoll::Ready(DONE)
        } else if !self.armed {
            self.armed = true;
            TimerPoll::Arm(self.deadline - now)
        } else {
            TimerPoll::Pending
        }
    }

    pub fn deadline(&self) -> (r: u64)
        ensures
            r == self@.deadline,
    {
        self.deadline
    }

    pub fn is_fired(&self) -> (r: bool)
        ensures
            r == self@.fired,
    {
        self.fired
    }
}

} // verus!
