//! What a timer remembers between the host's firing and the task's poll.

use crate::poll::Poll;
use crate::waker::wake;
use std::task::Waker;
use vstd::prelude::*;

verus! {

/// Where a timer stands between the host, which fires it, and the task that
/// polls it.
pub enum TimerState {
    /// Not fired since the last delivery, and nobody waits.
    Idle,
    /// Not fired since the last delivery; the waiter is woken by the next
    /// firing.
    Waiting(Waker),
    /// Fired, and not yet delivered to the task.
    Waked,
    /// A one-shot timer whose firing has been delivered.
    Finished,
}

impl TimerState {
    /// The state after the host has fired the timer.
    pub open spec fn fired(self) -> Self {
        TimerState::Waked
    }

    /// What a poll of a one-shot timer returns.
    pub open spec fn timeout_result(self) -> Poll<()> {
        if self is Waked {
            Poll::Ready(())
        } else {
            Poll::Pending
        }
    }

    /// The state of a one-shot timer after a poll on behalf of `waker`.
    pub open spec fn timeout_polled(self, waker: Waker) -> Self {
        if self is Waked {
            TimerState::Finished
        } else {
            TimerState::Waiting(waker)
        }
    }

    /// What a pull of a repeating timer returns.
    pub open spec fn interval_result(self) -> Poll<Option<()>> {
        if self is Waked {
            Poll::Ready(Some(()))
        } else {
            Poll::Pending
        }
    }

    /// The state of a repeating timer after a pull on behalf of `waker`.
    pub open spec fn interval_polled(self, waker: Waker) -> Self {
        if self is Waked {
            TimerState::Idle
        } else {
            TimerState::Waiting(waker)
        }
    }
}

/// The host fires: the state becomes `Waked`, and the waiter, if one was
/// parked, is woken.
fn fire(state: &mut TimerState)
    ensures
        *final(state) == old(state).fired(),
{
    let mut previous = TimerState::Waked;
    std::mem::swap(state, &mut previous);
    match previous {
        TimerState::Waiting(waker) => {
            wake(waker);
        },
        _ => {},
    }
}

/// A timer that fires once and completes the task that waits for it.
pub struct Timeout {
    state: TimerState,
}

impl View for Timeout {
    type V = TimerState;

    closed spec fn view(&self) -> TimerState {
        self.state
    }
}

impl Timeout {
    /// A timer that has not fired.
    pub fn new() -> (timer: Self)
        ensures
            timer@ == TimerState::Idle,
    {
        Timeout { state: TimerState::Idle }
    }

    /// Whether the firing has been delivered.
    pub fn is_finished(&self) -> (r: bool)
        ensures
            r == (self@ is Finished),
    {
        match self.state {
            TimerState::Finished => true,
            _ => false,
        }
    }

    /// The host reports that the time is up. A parked waiter is woken.
    pub fn fire(&mut self)
        ensures
            final(self)@ == old(self)@.fired(),
    {
        fire(&mut self.state);
    }

    /// One poll: ready, once and for all, if the timer has fired; otherwise
    /// `waker` is parked, replacing any earlier waiter, and the poll is
    /// pending. A timer whose firing has been delivered is not polled again.
    pub fn poll(&mut self, waker: Waker) -> (r: Poll<()>)
        requires
            !(old(self)@ is Finished),
        ensures
            r == old(self)@.timeout_result(),
            final(self)@ == old(self)@.timeout_polled(waker),
    {
        match self.state {
            TimerState::Waked => {
                self.state = TimerState::Finished;
                Poll::Ready(())
            },
            _ => {
                self.state = TimerState::Waiting(waker);
                Poll::Pending
            },
        }
    }
}

/// A timer that fires again and again and yields one tick for the firings
/// since the last pull.
pub struct Interval {
    state: TimerState,
}

impl View for Interval {
    type V = TimerState;

    closed spec fn view(&self) -> TimerState {
        self.state
    }
}

impl Interval {
    /// A timer that has not fired.
    pub fn new() -> (timer: Self)
        ensures
            timer@ == TimerState::Idle,
    {
        Interval { state: TimerState::Idle }
    }

    /// The host reports that a period is over. A parked waiter is woken.
    pub fn fire(&mut self)
        ensures
            final(self)@ == old(self)@.fired(),
    {
        fire(&mut self.state);
    }

    /// One pull: a tick if the timer has fired since the last tick was
    /// taken; otherwise `waker` is parked, replacing any earlier waiter, and
    /// the pull is pending. The sequence of ticks never ends.
    pub fn poll_next(&mut self, waker: Waker) -> (r: Poll<Option<()>>)
        ensures
            r == old(self)@.interval_result(),
            final(self)@ == old(self)@.interval_polled(waker),
    {
        match self.state {
            TimerState::Waked => {
                self.state = TimerState::Idle;
                Poll::Ready(Some(()))
            },
            _ => {
                self.state = TimerState::Waiting(waker);
                Poll::Pending
            },
        }
    }
}

/// A one-shot timer completes exactly once: whatever happened before, the
/// poll that follows the firing is ready and finishes the timer.
pub proof fn lemma_timeout_completes_once(state: TimerState, waker: Waker)
    ensures
        state.fired().timeout_result() == Poll::Ready(()),
        state.fired().timeout_polled(waker) == TimerState::Finished,
{
}

/// A repeating timer hands out one tick for all firings between two pulls,
/// and none without a firing.
pub proof fn lemma_interval_ticks(state: TimerState, first: Waker, second: Waker)
    ensures
        state.fired().fired().interval_result() == Poll::Ready(Some(())),
        state.fired().fired().interval_polled(first).interval_result() == Poll::<
            Option<()>,
        >::Pending,
        state.fired().interval_polled(first).interval_polled(second) == TimerState::Waiting(second),
{
}

} // verus!
