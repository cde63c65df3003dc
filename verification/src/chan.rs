//! A bounded channel from many sending ends to one receiving end, as one
//! value that records which ends exist.

use crate::async_queue::{AsyncQueue, QueueView};
use crate::poll::Poll;
use std::task::Waker;
use vstd::prelude::*;

verus! {

/// Why a send did not go through. Either way the value comes back untouched.
#[derive(Debug)]
pub enum ChannelSendError<T> {
    /// The queue held as many items as its capacity allows.
    Full(T),
    /// The receiving end no longer exists.
    Closed(T),
}

impl<T> ChannelSendError<T> {
    /// What went wrong, in words.
    pub open spec fn spec_message(self) -> Seq<char> {
        match self {
            ChannelSendError::Full(_) => "no available capacity"@,
            ChannelSendError::Closed(_) => "channel closed"@,
        }
    }

    /// What went wrong, in words.
    pub fn message(&self) -> (text: &'static str)
        ensures
            text@ == self.spec_message(),
    {
        match self {
            ChannelSendError::Full(_) => "no available capacity",
            ChannelSendError::Closed(_) => "channel closed",
        }
    }

    /// The value that could not be sent.
    pub fn into_inner(self) -> (value: T)
        ensures
            value == match self {
                ChannelSendError::Full(value) => value,
                ChannelSendError::Closed(value) => value,
            },
    {
        match self {
            ChannelSendError::Full(value) => value,
            ChannelSendError::Closed(value) => value,
        }
    }
}

/// What a [`Channel`] holds, as mathematics.
pub struct ChannelView<T> {
    /// The queue, which lives exactly as long as the receiving end.
    pub queue: Option<QueueView<T>>,
    /// The number of sending ends that exist.
    pub senders: nat,
}

impl<T> ChannelView<T> {
    /// A new channel: an empty queue, the receiving end and one sending end.
    pub open spec fn fresh(capacity: nat) -> Self {
        ChannelView { queue: Some(QueueView::empty(capacity)), senders: 1 }
    }

    /// The queue, while there is one, respects its capacity.
    pub open spec fn wf(self) -> bool {
        self.queue matches Some(queue) ==> queue.wf()
    }

    /// Whether the receiving end is gone.
    pub open spec fn closed(self) -> bool {
        self.queue is None
    }

    /// What a send of `value` returns.
    pub open spec fn send_result(self, value: T) -> Result<(), ChannelSendError<T>> {
        match self.queue {
            None => Err(ChannelSendError::Closed(value)),
            Some(queue) => if queue.is_full() {
                Err(ChannelSendError::Full(value))
            } else {
                Ok(())
            },
        }
    }

    /// The channel after a send of `value`: on success the value is the last
    /// item and the waiter has been woken; on failure nothing has changed.
    pub open spec fn sent(self, value: T) -> Self {
        match self.queue {
            Some(queue) if !queue.is_full() => ChannelView {
                queue: Some(queue.pushed(value)),
                ..self
            },
            _ => self,
        }
    }

    /// The channel after the `values` have been sent one after the other.
    pub open spec fn sent_all(self, values: Seq<T>) -> Self
        decreases values.len(),
    {
        if values.len() == 0 {
            self
        } else {
            self.sent_all(values.drop_last()).sent(values.last())
        }
    }

    /// What a pull returns: the oldest item; with none buffered, the end of
    /// the sequence once no sending end, or no receiving end, is left; and
    /// otherwise that it is pending.
    pub open spec fn pull_result(self) -> Poll<Option<T>> {
        match self.queue {
            None => Poll::Ready(None),
            Some(queue) => if queue.items.len() > 0 {
                Poll::Ready(Some(queue.items[0]))
            } else if self.senders == 0 {
                Poll::Ready(None)
            } else {
                Poll::Pending
            },
        }
    }

    /// The channel after a pull on behalf of `waker`: an item is taken if
    /// there is one, and the waker is parked exactly when the pull is pending.
    pub open spec fn pulled(self, waker: Waker) -> Self {
        match self.queue {
            None => self,
            Some(queue) => if queue.items.len() > 0 {
                ChannelView { queue: Some(queue.popped()), ..self }
            } else if self.senders == 0 {
                self
            } else {
                ChannelView { queue: Some(queue.parked(waker)), ..self }
            },
        }
    }

    /// The channel after one pull on behalf of each of the `wakers`, in
    /// their order.
    pub open spec fn pulled_all(self, wakers: Seq<Waker>) -> Self
        decreases wakers.len(),
    {
        if wakers.len() == 0 {
            self
        } else {
            self.pulled_all(wakers.drop_last()).pulled(wakers.last())
        }
    }

    /// The channel after one more sending end has come into being.
    pub open spec fn sender_cloned(self) -> Self {
        ChannelView { senders: self.senders + 1, ..self }
    }

    /// The channel after one sending end has gone: when it was the last, the
    /// waiter is woken so that the receiving end can find the end of the
    /// sequence; otherwise nothing else changes.
    pub open spec fn sender_dropped(self) -> Self {
        ChannelView {
            queue: match self.queue {
                Some(queue) if self.senders == 1 => Some(queue.woken()),
                _ => self.queue,
            },
            senders: (self.senders - 1) as nat,
        }
    }

    /// The channel after the receiving end has gone, and the queue with it.
    pub open spec fn receiver_dropped(self) -> Self {
        ChannelView { queue: None, ..self }
    }
}

/// A bounded channel from any number of sending ends to one receiving end.
///
/// The value is the state that all ends share. Each operation of an end is a
/// method that says which end acts: [`Channel::send`], [`Channel::closed`],
/// [`Channel::clone_tx`] and [`Channel::drop_tx`] act for a sending end,
/// [`Channel::poll_next`] and [`Channel::drop_rx`] for the receiving end.
pub struct Channel<T> {
    queue: Option<AsyncQueue<T>>,
    senders: usize,
}

impl<T> View for Channel<T> {
    type V = ChannelView<T>;

    closed spec fn view(&self) -> ChannelView<T> {
        ChannelView {
            queue: match self.queue {
                Some(queue) => Some(queue@),
                None => None,
            },
            senders: self.senders as nat,
        }
    }
}

impl<T> Channel<T> {
    /// Creates a channel that buffers up to `capacity` items, with its
    /// receiving end and one sending end.
    pub fn new(capacity: usize) -> (chan: Self)
        requires
            capacity > 0,
        ensures
            chan@ == ChannelView::<T>::fresh(capacity as nat),
    {
        Channel { queue: Some(AsyncQueue::new(capacity)), senders: 1 }
    }

    /// Whether the receiving end is gone.
    pub fn closed(&self) -> (r: bool)
        ensures
            r == self@.closed(),
    {
        self.queue.is_none()
    }

    /// The number of sending ends that exist.
    pub fn sender_count(&self) -> (n: usize)
        ensures
            n == self@.senders,
    {
        self.senders
    }

    /// Sends `value` on behalf of a sending end. The value is appended and
    /// the receiving end's parked waiter woken; or it comes back in
    /// `Closed` when the receiving end is gone, or in `Full` when the queue
    /// has no room, and the channel stays as it was.
    pub fn send(&mut self, value: T) -> (r: Result<(), ChannelSendError<T>>)
        requires
            old(self)@.senders > 0,
        ensures
            r == old(self)@.send_result(value),
            final(self)@ == old(self)@.sent(value),
    {
        match &mut self.queue {
            None => Err(ChannelSendError::Closed(value)),
            Some(queue) => match queue.enqueue(value) {
                Ok(()) => Ok(()),
                Err(value) => Err(ChannelSendError::Full(value)),
            },
        }
    }

    /// Registers one more sending end, a clone of an existing one.
    pub fn clone_tx(&mut self)
        requires
            0 < old(self)@.senders < usize::MAX,
        ensures
            final(self)@ == old(self)@.sender_cloned(),
    {
        self.senders = self.senders + 1;
    }

    /// Retires one sending end. The last one to go wakes the receiving end's
    /// parked waiter.
    pub fn drop_tx(&mut self)
        requires
            old(self)@.senders > 0,
        ensures
            final(self)@ == old(self)@.sender_dropped(),
    {
        self.senders = self.senders - 1;
        if self.senders == 0 {
            match &mut self.queue {
                Some(queue) => {
                    queue.wake();
                },
                None => {},
            }
        }
    }

    /// Retires the receiving end and destroys the queue with all it buffers.
    pub fn drop_rx(&mut self)
        ensures
            final(self)@ == old(self)@.receiver_dropped(),
    {
        self.queue = None;
    }

    /// One pull on behalf of the receiving end: the oldest item if one is
    /// buffered; otherwise the end of the sequence if no sending end is left,
    /// and else `waker` is parked, replacing any earlier waiter, and the pull
    /// is pending.
    pub fn poll_next(&mut self, waker: Waker) -> (r: Poll<Option<T>>)
        ensures
            r == old(self)@.pull_result(),
            final(self)@ == old(self)@.pulled(waker),
    {
        let senders = self.senders;
        match &mut self.queue {
            None => Poll::Ready(None),
            Some(queue) => match queue.dequeue() {
                Some(item) => Poll::Ready(Some(item)),
                None => {
                    if senders == 0 {
                        Poll::Ready(None)
                    } else {
                        queue.park(waker);
                        Poll::Pending
                    }
                },
            },
        }
    }
}

/// Every operation keeps the buffer within its capacity, and the queue lives
/// exactly as long as the receiving end: nothing but the end of the receiving
/// end destroys it, and nothing brings it back.
pub proof fn lemma_operations_keep_wf<T>(chan: ChannelView<T>, value: T, waker: Waker)
    requires
        chan.wf(),
    ensures
        ChannelView::<T>::fresh(1).wf(),
        chan.sent(value).wf(),
        chan.pulled(waker).wf(),
        chan.sender_cloned().wf(),
        chan.sender_dropped().wf(),
        chan.receiver_dropped().wf(),
        chan.receiver_dropped().closed(),
        chan.sent(value).closed() == chan.closed(),
        chan.pulled(waker).closed() == chan.closed(),
        chan.sender_cloned().closed() == chan.closed(),
        chan.sender_dropped().closed() == chan.closed(),
{
}

/// Sending values for which the queue has room appends them in order, wakes
/// the waiter and changes nothing else.
pub proof fn lemma_sent_all<T>(chan: ChannelView<T>, values: Seq<T>)
    requires
        chan.queue is Some,
        chan.queue->0.items.len() + values.len() <= chan.queue->0.capacity,
    ensures
        chan.sent_all(values).senders == chan.senders,
        chan.sent_all(values).queue == Some(
            QueueView {
                items: chan.queue->0.items + values,
                waiter: if values.len() > 0 {
                    None
                } else {
                    chan.queue->0.waiter
                },
                capacity: chan.queue->0.capacity,
            },
        ),
    decreases values.len(),
{
    let queue = chan.queue->0;
    if values.len() == 0 {
        assert(queue.items + values =~= queue.items);
    } else {
        lemma_sent_all(chan, values.drop_last());
        let before = chan.sent_all(values.drop_last());
        assert(before.queue->0.items.push(values.last()) =~= queue.items + values);
    }
}

/// As many pulls as items are buffered, or fewer, take the oldest items and
/// change nothing else.
pub proof fn lemma_pulled_all<T>(chan: ChannelView<T>, wakers: Seq<Waker>)
    requires
        chan.queue is Some,
        wakers.len() <= chan.queue->0.items.len(),
    ensures
        chan.pulled_all(wakers).senders == chan.senders,
        chan.pulled_all(wakers).queue == Some(
            QueueView { items: chan.queue->0.items.skip(wakers.len() as int), ..chan.queue->0 },
        ),
    decreases wakers.len(),
{
    let queue = chan.queue->0;
    if wakers.len() == 0 {
        assert(queue.items.skip(0) =~= queue.items);
    } else {
        lemma_pulled_all(chan, wakers.drop_last());
        let before = chan.pulled_all(wakers.drop_last());
        assert(before.queue->0.items.drop_first() =~= queue.items.skip(wakers.len() as int));
    }
}

/// Filling an empty channel: each of as many sends as the capacity allows
/// succeeds, one more send is refused as `Full` and leaves the channel as it
/// was, and successive pulls then deliver the sent values in the order in
/// which they were sent.
pub proof fn lemma_fill_then_full<T>(
    chan: ChannelView<T>,
    values: Seq<T>,
    extra: T,
    wakers: Seq<Waker>,
)
    requires
        chan.wf(),
        chan.queue is Some,
        chan.queue->0.items.len() == 0,
        values.len() == chan.queue->0.capacity,
        wakers.len() < values.len(),
    ensures
        forall|i: int|
            0 <= i < values.len() ==> #[trigger] chan.sent_all(values.take(i)).send_result(values[i])
                == Ok::<(), ChannelSendError<T>>(()),
        chan.sent_all(values).send_result(extra) == Err::<(), ChannelSendError<T>>(
            ChannelSendError::Full(extra),
        ),
        chan.sent_all(values).sent(extra) == chan.sent_all(values),
        chan.sent_all(values).pulled_all(wakers).pull_result() == Poll::Ready(
            Some(values[wakers.len() as int]),
        ),
{
    assert forall|i: int| 0 <= i < values.len() implies #[trigger] chan.sent_all(
        values.take(i),
    ).send_result(values[i]) == Ok::<(), ChannelSendError<T>>(()) by {
        lemma_sent_all(chan, values.take(i));
    }
    lemma_sent_all(chan, values);
    let full = chan.sent_all(values);
    assert(full.queue->0.items =~= values);
    lemma_pulled_all(full, wakers);
}

/// Once no sending end is left, pulls first deliver what is still buffered,
/// oldest first, and from then on every pull reports the end of the
/// sequence; no pull brings a sending end back.
pub proof fn lemma_drain_then_end<T>(chan: ChannelView<T>, wakers: Seq<Waker>)
    requires
        chan.queue is Some,
        chan.senders == 0,
    ensures
        chan.pulled_all(wakers).senders == 0,
        chan.pulled_all(wakers).queue is Some,
        wakers.len() < chan.queue->0.items.len() ==> chan.pulled_all(wakers).pull_result()
            == Poll::Ready(Some(chan.queue->0.items[wakers.len() as int])),
        wakers.len() >= chan.queue->0.items.len() ==> chan.pulled_all(wakers).pull_result()
            == Poll::<Option<T>>::Ready(None) && chan.pulled_all(wakers).queue->0.items.len() == 0,
    decreases wakers.len(),
{
    let items = chan.queue->0.items;
    if wakers.len() <= items.len() {
        lemma_pulled_all(chan, wakers);
    } else {
        lemma_drain_then_end(chan, wakers.drop_last());
    }
}

/// The last sending end to go leaves the buffered items in place and wakes
/// the waiter; any other leaves the queue untouched.
pub proof fn lemma_last_sender_wakes<T>(chan: ChannelView<T>)
    requires
        chan.queue is Some,
        chan.senders > 0,
    ensures
        chan.sender_dropped().senders == chan.senders - 1,
        chan.senders == 1 ==> chan.sender_dropped().queue == Some(chan.queue->0.woken()),
        chan.senders > 1 ==> chan.sender_dropped().queue == chan.queue,
{
}

} // verus!
