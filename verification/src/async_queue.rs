//! The bounded queue that every other primitive buffers in: items in the
//! order of their arrival, at most one parked waiter, and a capacity that
//! pushes respect.

use crate::poll::Poll;
use crate::waker::wake;
use std::collections::VecDeque;
use std::task::Waker;
use vstd::prelude::*;

verus! {

/// What an [`AsyncQueue`] holds, as mathematics.
pub struct QueueView<T> {
    /// The buffered items, oldest first.
    pub items: Seq<T>,
    /// The waiter that gets woken by the next change, if one is parked.
    pub waiter: Option<Waker>,
    /// The largest number of items that may be buffered.
    pub capacity: nat,
}

impl<T> QueueView<T> {
    /// An empty queue without a waiter.
    pub open spec fn empty(capacity: nat) -> Self {
        QueueView { items: Seq::empty(), waiter: None, capacity }
    }

    /// The buffer never outgrows its positive capacity.
    pub open spec fn wf(self) -> bool {
        0 < self.capacity && self.items.len() <= self.capacity
    }

    /// No room is left.
    pub open spec fn is_full(self) -> bool {
        self.items.len() >= self.capacity
    }

    /// The queue after a successful push: the item is last and the waiter has
    /// been taken out to be woken.
    pub open spec fn pushed(self, value: T) -> Self {
        QueueView { items: self.items.push(value), waiter: None, ..self }
    }

    /// The queue after its front item has been taken.
    pub open spec fn popped(self) -> Self {
        QueueView { items: self.items.drop_first(), ..self }
    }

    /// The queue after `waker` has replaced whatever waiter was parked.
    pub open spec fn parked(self, waker: Waker) -> Self {
        QueueView { waiter: Some(waker), ..self }
    }

    /// The queue after its waiter, if any, has been taken out to be woken.
    pub open spec fn woken(self) -> Self {
        QueueView { waiter: None, ..self }
    }
}

/// A bounded FIFO buffer with room for one parked waiter.
pub struct AsyncQueue<T> {
    queue: VecDeque<T>,
    waker: Option<Waker>,
    capacity: usize,
}

impl<T> View for AsyncQueue<T> {
    type V = QueueView<T>;

    closed spec fn view(&self) -> QueueView<T> {
        QueueView { items: self.queue@, waiter: self.waker, capacity: self.capacity as nat }
    }
}

impl<T> Default for AsyncQueue<T> {
    /// An empty queue with room for one item.
    fn default() -> (q: Self)
        ensures
            q@ == QueueView::<T>::empty(1),
    {
        AsyncQueue::new(1)
    }
}

impl<T> AsyncQueue<T> {
    /// Creates an empty queue that buffers at most `capacity` items.
    pub fn new(capacity: usize) -> (q: Self)
        requires
            capacity > 0,
        ensures
            q@ == QueueView::<T>::empty(capacity as nat),
    {
        AsyncQueue { queue: VecDeque::with_capacity(1), waker: None, capacity }
    }

    /// The capacity fixed at creation.
    pub fn capacity(&self) -> (c: usize)
        ensures
            c == self@.capacity,
    {
        self.capacity
    }

    /// The number of buffered items.
    pub fn len(&self) -> (n: usize)
        ensures
            n == self@.items.len(),
    {
        self.queue.len()
    }

    /// Appends `value` and wakes the parked waiter, or hands `value` back
    /// untouched when the queue is full.
    pub fn enqueue(&mut self, value: T) -> (r: Result<(), T>)
        ensures
            old(self)@.is_full() ==> r == Err::<(), T>(value) && final(self)@ == old(self)@,
            !old(self)@.is_full() ==> r == Ok::<(), T>(()) && final(self)@ == old(self)@.pushed(
                value,
            ),
    {
        if self.queue.len() < self.capacity {
            self.queue.push_back(value);
            self.wake();
            Ok(())
        } else {
            Err(value)
        }
    }

    /// Takes the parked waiter out, if there is one, and wakes it.
    pub fn wake(&mut self)
        ensures
            final(self)@ == old(self)@.woken(),
    {
        if let Some(waker) = self.waker.take() {
            wake(waker);
        }
    }

    /// Takes the oldest item, if there is one.
    pub fn dequeue(&mut self) -> (r: Option<T>)
        ensures
            old(self)@.items.len() == 0 ==> r.is_none() && final(self)@ == old(self)@,
            old(self)@.items.len() > 0 ==> r == Some(old(self)@.items[0]) && final(self)@ == old(
                self,
            )@.popped(),
    {
        let r = self.queue.pop_front();
        proof {
            if r.is_some() {
                assert(self.queue@ =~= old(self).queue@.drop_first());
            }
        }
        r
    }

    /// Parks `waker`, replacing any waiter parked before.
    pub fn park(&mut self, waker: Waker)
        ensures
            final(self)@ == old(self)@.parked(waker),
    {
        self.waker = Some(waker);
    }

    /// One pull: the oldest item if there is one, otherwise `waker` is parked
    /// and the pull is pending. A queue on its own never ends.
    pub fn poll_next(&mut self, waker: Waker) -> (r: Poll<Option<T>>)
        ensures
            old(self)@.items.len() > 0 ==> r == Poll::Ready(Some(old(self)@.items[0]))
                && final(self)@ == old(self)@.popped(),
            old(self)@.items.len() == 0 ==> r == Poll::<Option<T>>::Pending && final(self)@ == old(
                self,
            )@.parked(waker),
    {
        match self.dequeue() {
            Some(item) => Poll::Ready(Some(item)),
            None => {
                self.park(waker);
                Poll::Pending
            },
        }
    }
}

/// The buffer never outgrows its capacity: a new queue respects it, a push
/// is only made where room is left, and nothing else adds an item.
pub proof fn lemma_operations_keep_wf<T>(queue: QueueView<T>, value: T, waker: Waker)
    requires
        queue.wf(),
    ensures
        QueueView::<T>::empty(queue.capacity).wf(),
        !queue.is_full() ==> queue.pushed(value).wf(),
        queue.items.len() > 0 ==> queue.popped().wf(),
        queue.parked(waker).wf(),
        queue.woken().wf(),
{
}

} // verus!
