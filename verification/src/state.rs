//! A value holder that broadcasts each change, and only a change, to its
//! watchers.

use crate::event::{Event, EventView};
use crate::poll::Poll;
use std::task::Waker;
use vstd::prelude::*;
use vstd::std_specs::cmp::PartialEqSpec;

verus! {

/// What a [`State`] holds, as mathematics.
pub struct StateView<T> {
    /// The value written last.
    pub value: T,
    /// The bus on which changes are broadcast as pairs of the new and the
    /// previous value.
    pub watchers: EventView<(T, T)>,
}

impl<T> StateView<T> {
    /// A new cell: `value` and a bus without subscriptions.
    pub open spec fn fresh(value: T, capacity: nat) -> Self {
        StateView { value, watchers: EventView::empty(capacity) }
    }

    /// The cell after a write of `value` that the type's equality tells
    /// apart from the value held before (`changed`) or does not.
    pub open spec fn written(self, value: T, changed: bool) -> Self {
        StateView {
            value,
            watchers: if changed {
                self.watchers.emitted((value, self.value))
            } else {
                self.watchers
            },
        }
    }
}

impl<T: PartialEq> StateView<T> {
    /// The cell after `value` has been set: a change is broadcast exactly
    /// when the type's equality tells `value` apart from the value held
    /// before.
    pub open spec fn set(self, value: T) -> Self {
        self.written(value, !self.value.eq_spec(&value))
    }
}

/// What a pull of the new values alone makes of a pull of the pairs.
pub open spec fn new_value_of<T>(change: Poll<Option<(T, T)>>) -> Poll<Option<T>> {
    match change {
        Poll::Ready(Some(pair)) => Poll::Ready(Some(pair.0)),
        Poll::Ready(None) => Poll::Ready(None),
        Poll::Pending => Poll::Pending,
    }
}

/// A value holder that tells its watchers about every change.
pub struct State<T> {
    value: T,
    update_event: Event<(T, T)>,
}

impl<T> View for State<T> {
    type V = StateView<T>;

    closed spec fn view(&self) -> StateView<T> {
        StateView { value: self.value, watchers: self.update_event@ }
    }
}

impl<T: Copy + Eq + Default> Default for State<T> {
    /// A cell that holds the type's default value and whose watchers buffer
    /// one change each.
    fn default() -> (state: Self)
        ensures
            state.wf(),
            call_ensures(T::default, (), state@.value),
            state@.watchers == EventView::<(T, T)>::empty(1),
    {
        State::new(T::default())
    }
}

impl<T: Copy + Eq> State<T> {
    /// The bus of watchers is well-formed.
    pub closed spec fn wf(&self) -> bool {
        self.update_event.wf()
    }

    /// A well-formed cell has a well-formed bus of watchers.
    pub proof fn lemma_view_wf(&self)
        requires
            self.wf(),
        ensures
            self@.watchers.wf(),
    {
        self.update_event.lemma_view_wf();
    }

    /// Creates a cell that holds `value` and whose watchers buffer one
    /// change each.
    pub fn new(value: T) -> (state: Self)
        ensures
            state.wf(),
            state@ == StateView::fresh(value, 1),
    {
        Self::new_with_capacity(value, 1)
    }

    /// Creates a cell that holds `value` and whose watchers buffer up to
    /// `capacity` changes each.
    pub fn new_with_capacity(value: T, capacity: usize) -> (state: Self)
        requires
            capacity > 0,
        ensures
            state.wf(),
            state@ == StateView::fresh(value, capacity as nat),
    {
        State { value, update_event: Event::new(capacity) }
    }

    /// Whether the writing side still exists.
    pub fn is_alive(&self) -> (alive: bool)
        ensures
            alive == self@.watchers.alive,
    {
        self.update_event.is_alive()
    }

    /// Whether `key` names a watcher that still exists.
    pub fn is_watching(&self, key: usize) -> (found: bool)
        requires
            self.wf(),
        ensures
            found == self@.watchers.contains(key),
    {
        self.update_event.is_listening(key)
    }

    /// The number of watchers that still exist.
    pub fn watcher_count(&self) -> (n: usize)
        requires
            self.wf(),
        ensures
            n == self@.watchers.keys.len(),
    {
        self.update_event.listener_count()
    }

    /// The value written last.
    pub fn get(&self) -> (value: T)
        ensures
            value == self@.value,
    {
        self.value
    }

    /// Replaces the held value. Where the type's equality tells the new
    /// value apart from the previous one, the pair of both is offered to
    /// every watcher; where it does not, nothing is broadcast.
    pub fn set(&mut self, value: T)
        requires
            old(self).wf(),
            old(self)@.watchers.alive,
        ensures
            final(self).wf(),
            final(self)@ == old(self)@.written(value, true) || final(self)@ == old(self)@.written(
                value,
                false,
            ),
            T::obeys_eq_spec() ==> final(self)@ == old(self)@.set(value),
    {
        let previous = self.value;
        self.value = value;
        if previous != value {
            let _ = self.update_event.try_emit_copy((value, previous));
        }
    }

    /// Registers a new watcher and returns its key.
    pub fn watch(&mut self) -> (key: usize)
        requires
            old(self).wf(),
            old(self)@.watchers.alive,
        ensures
            final(self).wf(),
            !old(self)@.watchers.contains(key),
            final(self)@.watchers.contains(key),
            final(self)@ == (StateView { watchers: old(self)@.watchers.joined(key), ..old(self)@ }),
    {
        self.update_event.listen()
    }

    /// Removes watcher `key`, if it exists.
    pub fn unwatch(&mut self, key: usize)
        requires
            old(self).wf(),
        ensures
            final(self).wf(),
            final(self)@ == (StateView {
                watchers: old(self)@.watchers.unlistened(key),
                ..old(self)@
            }),
    {
        self.update_event.unlisten(key);
    }

    /// One pull of watcher `key`: the oldest change it buffers, as the pair
    /// of the new and the previous value; otherwise as a subscription of the
    /// bus behaves.
    pub fn poll_next(&mut self, key: usize, waker: Waker) -> (r: Poll<Option<(T, T)>>)
        requires
            old(self).wf(),
            old(self)@.watchers.contains(key),
        ensures
            final(self).wf(),
            r == old(self)@.watchers.pull_result(key),
            final(self)@ == (StateView {
                watchers: old(self)@.watchers.pulled(key, waker),
                ..old(self)@
            }),
    {
        self.update_event.poll_next(key, waker)
    }

    /// One pull of watcher `key` that hands on only the new value of the
    /// change. The cell changes as under [`Self::poll_next`].
    pub fn poll_next_value(&mut self, key: usize, waker: Waker) -> (r: Poll<Option<T>>)
        requires
            old(self).wf(),
            old(self)@.watchers.contains(key),
        ensures
            final(self).wf(),
            r == new_value_of(old(self)@.watchers.pull_result(key)),
            final(self)@ == (StateView {
                watchers: old(self)@.watchers.pulled(key, waker),
                ..old(self)@
            }),
    {
        match self.poll_next(key, waker) {
            Poll::Ready(Some(pair)) => Poll::Ready(Some(pair.0)),
            Poll::Ready(None) => Poll::Ready(None),
            Poll::Pending => Poll::Pending,
        }
    }

    /// Ends the cell from the writing side: every parked watcher is woken and
    /// finds the end of its sequence once it has drained its queue.
    pub fn close(&mut self)
        requires
            old(self).wf(),
        ensures
            final(self).wf(),
            final(self)@ == (StateView { watchers: old(self)@.watchers.closed(), ..old(self)@ }),
    {
        self.update_event.close();
    }
}

impl State<bool> {
    /// Flips the held value through [`Self::set`] and returns the new value.
    pub fn toggle(&mut self) -> (value: bool)
        requires
            old(self).wf(),
            old(self)@.watchers.alive,
        ensures
            final(self).wf(),
            value == !old(self)@.value,
            final(self)@ == old(self)@.written(value, true),
    {
        let flipped = !self.get();
        self.set(flipped);
        self.get()
    }
}

/// Setting a value that the cell already holds changes nothing, however
/// often it is repeated: neither the value nor any watcher's queue.
pub proof fn lemma_set_same_is_silent<T: PartialEq>(state: StateView<T>, value: T)
    requires
        value.eq_spec(&value),
    ensures
        state.set(value).set(value) == state.set(value),
        state.value == value ==> state.set(value) == state,
{
}

/// Setting a value that differs from the one held broadcasts the pair of new
/// and previous value exactly once: every watcher with room gets that pair as
/// its one new last item, and every full watcher stays as it was.
pub proof fn lemma_set_other_broadcasts_once<T: PartialEq>(state: StateView<T>, value: T)
    requires
        !state.value.eq_spec(&value),
    ensures
        state.set(value).value == value,
        state.set(value).watchers == state.watchers.emitted((value, state.value)),
        state.set(value).watchers.keys == state.watchers.keys,
        state.set(value).watchers.queues.len() == state.watchers.queues.len(),
        forall|i: int|
            0 <= i < state.watchers.queues.len() ==> (#[trigger] state.set(value).watchers.queues[i])
                == if state.watchers.queues[i].is_full() {
                state.watchers.queues[i]
            } else {
                state.watchers.queues[i].pushed((value, state.value))
            },
{
}

} // verus!
