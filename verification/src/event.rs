//! A multicast bus: each subscription has a bounded queue of its own, so a
//! slow subscriber misses emissions without holding up the others.

use crate::async_queue::{AsyncQueue, QueueView};
use crate::poll::Poll;
use crate::registry::{lemma_key_joined, lemma_key_left, lemma_place_of, Registry};
use std::task::Waker;
use vstd::prelude::*;

verus! {

/// What an [`Event`] holds, as mathematics.
pub struct EventView<T> {
    /// The keys of the live subscriptions, in the order of delivery.
    pub keys: Seq<usize>,
    /// The queue of each subscription, in the order of `keys`.
    pub queues: Seq<QueueView<T>>,
    /// The capacity that every subscription's queue gets.
    pub capacity: nat,
    /// Whether the emitting side still exists.
    pub alive: bool,
}

/// The number of full queues among `queues`.
pub open spec fn full_count<T>(queues: Seq<QueueView<T>>) -> nat
    decreases queues.len(),
{
    if queues.len() == 0 {
        0
    } else {
        full_count(queues.drop_last()) + if queues.last().is_full() {
            1nat
        } else {
            0nat
        }
    }
}

/// What one emission of `value` does to one queue: a full queue misses it,
/// any other gets a clone of it as its last item and has its waiter woken.
pub open spec fn delivered<T: Clone>(before: QueueView<T>, value: T, after: QueueView<T>) -> bool {
    if before.is_full() {
        after == before
    } else {
        after == before.pushed(after.items.last()) && cloned(value, after.items.last())
    }
}

/// What one emission of a plainly copied `value` does to one queue.
pub open spec fn offered<T>(before: QueueView<T>, value: T) -> QueueView<T> {
    if before.is_full() {
        before
    } else {
        before.pushed(value)
    }
}

impl<T> EventView<T> {
    /// A bus without subscriptions.
    pub open spec fn empty(capacity: nat) -> Self {
        EventView { keys: Seq::empty(), queues: Seq::empty(), capacity, alive: true }
    }

    /// Every subscription has one key and one queue of the bus's capacity.
    pub open spec fn wf(self) -> bool {
        &&& 0 < self.capacity
        &&& self.keys.len() == self.queues.len()
        &&& self.keys.no_duplicates()
        &&& forall|i: int|
            0 <= i < self.queues.len() ==> (#[trigger] self.queues[i]).wf() && self.queues[i].capacity
                == self.capacity
    }

    /// Whether `key` names a live subscription.
    pub open spec fn contains(self, key: usize) -> bool {
        self.keys.contains(key)
    }

    /// The place of subscription `key` in the order of delivery.
    pub open spec fn place(self, key: usize) -> int {
        self.keys.index_of(key)
    }

    /// The queue of subscription `key`.
    pub open spec fn queue(self, key: usize) -> QueueView<T> {
        self.queues[self.place(key)]
    }

    /// The bus with the queue at `place` replaced.
    pub open spec fn with_queue(self, place: int, queue: QueueView<T>) -> Self {
        EventView { queues: self.queues.update(place, queue), ..self }
    }

    /// The bus after a new, empty subscription `key` has joined.
    pub open spec fn joined(self, key: usize) -> Self {
        EventView {
            keys: self.keys.push(key),
            queues: self.queues.push(QueueView::empty(self.capacity)),
            ..self
        }
    }

    /// The bus after the subscription at `place` has left: the last
    /// subscription takes its place.
    pub open spec fn left(self, place: int) -> Self {
        EventView {
            keys: self.keys.update(place, self.keys.last()).drop_last(),
            queues: self.queues.update(place, self.queues.last()).drop_last(),
            ..self
        }
    }

    /// What a pull of subscription `key` returns: its oldest item; with none
    /// buffered, that it is pending while the emitting side exists, and the
    /// end of the sequence afterwards.
    pub open spec fn pull_result(self, key: usize) -> Poll<Option<T>> {
        let queue = self.queue(key);
        if queue.items.len() > 0 {
            Poll::Ready(Some(queue.items[0]))
        } else if self.alive {
            Poll::Pending
        } else {
            Poll::Ready(None)
        }
    }

    /// The bus after a pull of subscription `key` on behalf of `waker`: an
    /// item is taken if there is one, and the waker is parked exactly when
    /// the pull is pending.
    pub open spec fn pulled(self, key: usize, waker: Waker) -> Self {
        let queue = self.queue(key);
        if queue.items.len() > 0 {
            self.with_queue(self.place(key), queue.popped())
        } else if self.alive {
            self.with_queue(self.place(key), queue.parked(waker))
        } else {
            self
        }
    }

    /// The bus after one pull of subscription `key` on behalf of each of the
    /// `wakers`, in their order.
    pub open spec fn pulled_all(self, key: usize, wakers: Seq<Waker>) -> Self
        decreases wakers.len(),
    {
        if wakers.len() == 0 {
            self
        } else {
            self.pulled_all(key, wakers.drop_last()).pulled(key, wakers.last())
        }
    }

    /// The bus after subscription `key` has been dropped; a key that names
    /// no live subscription changes nothing.
    pub open spec fn unlistened(self, key: usize) -> Self {
        if self.contains(key) {
            self.left(self.place(key))
        } else {
            self
        }
    }

    /// The number of subscriptions that would miss the next emission.
    pub open spec fn rejections(self) -> nat {
        full_count(self.queues)
    }

    /// What an emission reports: the number of subscriptions that accepted,
    /// or, where some were full, the numbers that accepted and that missed.
    pub open spec fn outcome(self) -> Result<usize, (usize, usize)> {
        let missed = self.rejections();
        let accepted = self.queues.len() - missed;
        if missed == 0 {
            Ok(accepted as usize)
        } else {
            Err((accepted as usize, missed as usize))
        }
    }

    /// The bus after an emission of a plainly copied `value`.
    pub open spec fn emitted(self, value: T) -> Self {
        EventView {
            queues: Seq::new(self.queues.len(), |i: int| offered(self.queues[i], value)),
            ..self
        }
    }

    /// The bus after its emitting side has gone: every waiter has been woken.
    pub open spec fn closed(self) -> Self {
        EventView {
            queues: Seq::new(self.queues.len(), |i: int| self.queues[i].woken()),
            alive: false,
            ..self
        }
    }
}

/// `after` is what an emission of `value` makes of `before`, each accepting
/// subscription getting a clone of its own.
pub open spec fn emission<T: Clone>(before: EventView<T>, value: T, after: EventView<T>) -> bool {
    &&& after.keys == before.keys
    &&& after.capacity == before.capacity
    &&& after.alive == before.alive
    &&& after.queues.len() == before.queues.len()
    &&& forall|i: int|
        0 <= i < before.queues.len() ==> delivered(before.queues[i], value, #[trigger] after.queues[i])
}

/// A multicast bus: every emission is offered to each live subscription, and
/// each subscription buffers what it accepted in a bounded queue of its own.
pub struct Event<T> {
    listeners: Registry<AsyncQueue<T>>,
    capacity: usize,
    alive: bool,
}

impl<T> View for Event<T> {
    type V = EventView<T>;

    closed spec fn view(&self) -> EventView<T> {
        EventView {
            keys: self.listeners.order(),
            queues: Seq::new(self.listeners.values().len(), |i: int| self.listeners.values()[i]@),
            capacity: self.capacity as nat,
            alive: self.alive,
        }
    }
}

impl<T> Default for Event<T> {
    /// A bus whose subscriptions buffer one item each.
    fn default() -> (bus: Self)
        ensures
            bus.wf(),
            bus@ == EventView::<T>::empty(1),
    {
        Event::new(1)
    }
}

impl<T> Event<T> {
    /// The registry is consistent and the bus is well-formed as a value.
    pub closed spec fn wf(&self) -> bool {
        self.listeners.wf() && self@.wf()
    }

    /// A well-formed bus has a well-formed view.
    pub proof fn lemma_view_wf(&self)
        requires
            self.wf(),
        ensures
            self@.wf(),
    {
    }

    /// Creates a bus whose subscriptions buffer up to `capacity` items each.
    pub fn new(capacity: usize) -> (bus: Self)
        requires
            capacity > 0,
        ensures
            bus.wf(),
            bus@ == EventView::<T>::empty(capacity as nat),
    {
        let bus = Event { listeners: Registry::new(), capacity, alive: true };
        assert(bus@.queues =~= Seq::empty());
        bus
    }

    /// Whether the emitting side still exists.
    pub fn is_alive(&self) -> (alive: bool)
        ensures
            alive == self@.alive,
    {
        self.alive
    }

    /// Whether `key` names a live subscription.
    pub fn is_listening(&self, key: usize) -> (found: bool)
        requires
            self.wf(),
        ensures
            found == self@.contains(key),
    {
        self.listeners.position(key).is_some()
    }

    /// The number of live subscriptions.
    pub fn listener_count(&self) -> (n: usize)
        requires
            self.wf(),
        ensures
            n == self@.keys.len(),
    {
        self.listeners.len()
    }

    /// Registers a new, empty subscription and returns its key.
    pub fn listen(&mut self) -> (key: usize)
        requires
            old(self).wf(),
            old(self)@.alive,
        ensures
            final(self).wf(),
            !old(self)@.contains(key),
            final(self)@.contains(key),
            final(self)@ == old(self)@.joined(key),
    {
        let queue = AsyncQueue::new(self.capacity);
        let key = self.listeners.insert(queue);
        proof {
            self.listeners.lemma_distinct();
            lemma_key_joined(old(self)@.keys, key);
            assert(self@.queues =~= old(self)@.joined(key).queues);
        }
        key
    }

    /// Removes subscription `key`, if it is live, together with whatever it
    /// still buffers.
    pub fn unlisten(&mut self, key: usize)
        requires
            old(self).wf(),
        ensures
            final(self).wf(),
            final(self)@ == old(self)@.unlistened(key),
    {
        let ghost place = old(self)@.place(key);
        let _ = self.listeners.position(key);
        let _ = self.listeners.remove(key);
        proof {
            self.listeners.lemma_distinct();
            if old(self)@.contains(key) {
                assert(self@.queues =~= old(self)@.left(place).queues);
            } else {
                assert(self@.queues =~= old(self)@.queues);
            }
        }
    }

    /// One pull of subscription `key`: its oldest buffered item if there is
    /// one; otherwise the end of the sequence if the emitting side is gone,
    /// and else `waker` is parked, replacing any earlier waiter, and the pull
    /// is pending.
    pub fn poll_next(&mut self, key: usize, waker: Waker) -> (r: Poll<Option<T>>)
        requires
            old(self).wf(),
            old(self)@.contains(key),
        ensures
            final(self).wf(),
            r == old(self)@.pull_result(key),
            final(self)@ == old(self)@.pulled(key, waker),
    {
        let alive = self.alive;
        let found = self.listeners.position(key);
        let place = found.unwrap();
        let queue = self.listeners.get_mut(place);
        let r = match queue.dequeue() {
            Some(item) => Poll::Ready(Some(item)),
            None => {
                if alive {
                    queue.park(waker);
                    Poll::Pending
                } else {
                    Poll::Ready(None)
                }
            },
        };
        proof {
            self.listeners.lemma_distinct();
            let before = old(self)@;
            let q = before.queue(key);
            if q.items.len() > 0 {
                assert(self@.queues =~= before.with_queue(place as int, q.popped()).queues);
            } else if alive {
                assert(self@.queues =~= before.with_queue(place as int, q.parked(waker)).queues);
            } else {
                assert(self@.queues =~= before.queues);
            }
        }
        r
    }

    /// Ends the bus from the emitting side: every parked waiter is woken, so
    /// that each suspended subscription is polled again and finds the end of
    /// its sequence once it has drained its queue.
    pub fn close(&mut self)
        requires
            old(self).wf(),
        ensures
            final(self).wf(),
            final(self)@ == old(self)@.closed(),
    {
        self.alive = false;
        let n = self.listeners.len();
        let mut i: usize = 0;
        while i < n
            invariant
                self.listeners.wf(),
                i <= n,
                n == self.listeners.values().len(),
                n == self.listeners.order().len(),
                n == old(self).listeners.values().len(),
                self.listeners.order() == old(self).listeners.order(),
                self.capacity == old(self).capacity,
                !self.alive,
                forall|j: int|
                    0 <= j < i ==> (#[trigger] self.listeners.values()[j])@ == old(
                        self,
                    ).listeners.values()[j]@.woken(),
                forall|j: int|
                    i <= j < n ==> #[trigger] self.listeners.values()[j] == old(
                        self,
                    ).listeners.values()[j],
            decreases n - i,
        {
            self.listeners.get_mut(i).wake();
            i += 1;
        }
        proof {
            assert(self@.queues =~= old(self)@.closed().queues);
            assert forall|j: int| 0 <= j < self@.queues.len() implies (#[trigger] self@.queues[j]).wf()
                && self@.queues[j].capacity == self@.capacity by {
                assert(old(self)@.queues[j].wf());
            }
        }
    }
}

impl<T: Clone> Event<T> {
    /// Offers `value` to every live subscription. A subscription with room
    /// buffers a clone of it and has its waiter woken; a full one misses it
    /// and stays as it is. The result is the number of subscriptions that
    /// accepted, or both numbers where at least one was full.
    pub fn try_emit(&mut self, value: T) -> (r: Result<usize, (usize, usize)>)
        requires
            old(self).wf(),
            old(self)@.alive,
        ensures
            final(self).wf(),
            emission(old(self)@, value, final(self)@),
            r == old(self)@.outcome(),
    {
        let n = self.listeners.len();
        let mut ok: usize = 0;
        let mut err: usize = 0;
        let mut i: usize = 0;
        while i < n
            invariant
                self.listeners.wf(),
                old(self).wf(),
                i <= n,
                n == self.listeners.values().len(),
                n == self.listeners.order().len(),
                n == old(self).listeners.values().len(),
                self.listeners.order() == old(self).listeners.order(),
                self.capacity == old(self).capacity,
                self.alive == old(self).alive,
                ok + err == i,
                err == full_count(old(self)@.queues.take(i as int)),
                forall|j: int|
                    0 <= j < i ==> delivered(
                        old(self).listeners.values()[j]@,
                        value,
                        (#[trigger] self.listeners.values()[j])@,
                    ),
                forall|j: int|
                    i <= j < n ==> #[trigger] self.listeners.values()[j] == old(
                        self,
                    ).listeners.values()[j],
            decreases n - i,
        {
            let queue = self.listeners.get_mut(i);
            if queue.len() < queue.capacity() {
                let item = value.clone();
                let _ = queue.enqueue(item);
                ok += 1;
            } else {
                err += 1;
            }
            proof {
                let queues = old(self)@.queues;
                assert(queues.take(i + 1).drop_last() =~= queues.take(i as int));
                assert(queues.take(i + 1).last() == queues[i as int]);
            }
            i += 1;
        }
        proof {
            let queues = old(self)@.queues;
            assert(queues.take(n as int) =~= queues);
            assert forall|j: int| 0 <= j < self@.queues.len() implies (#[trigger] self@.queues[j]).wf()
                && self@.queues[j].capacity == self@.capacity by {
                assert(queues[j].wf());
                assert(delivered(queues[j], value, self.listeners.values()[j]@));
            }
        }
        if err == 0 {
            Ok(ok)
        } else {
            Err((ok, err))
        }
    }

    /// Offers `value` to every live subscription as [`Self::try_emit`] does,
    /// without reporting how many accepted it.
    pub fn emit(&mut self, value: T)
        requires
            old(self).wf(),
            old(self)@.alive,
        ensures
            final(self).wf(),
            emission(old(self)@, value, final(self)@),
    {
        let _ = self.try_emit(value);
    }
}

impl<T: Copy> Event<T> {
    /// Offers a plainly copied `value` to every live subscription, so that
    /// each accepting subscription buffers `value` itself. Otherwise as
    /// [`Self::try_emit`].
    pub fn try_emit_copy(&mut self, value: T) -> (r: Result<usize, (usize, usize)>)
        requires
            old(self).wf(),
            old(self)@.alive,
        ensures
            final(self).wf(),
            final(self)@ == old(self)@.emitted(value),
            r == old(self)@.outcome(),
    {
        let n = self.listeners.len();
        let mut ok: usize = 0;
        let mut err: usize = 0;
        let mut i: usize = 0;
        while i < n
            invariant
                self.listeners.wf(),
                old(self).wf(),
                i <= n,
                n == self.listeners.values().len(),
                n == self.listeners.order().len(),
                n == old(self).listeners.values().len(),
                self.listeners.order() == old(self).listeners.order(),
                self.capacity == old(self).capacity,
                self.alive == old(self).alive,
                ok + err == i,
                err == full_count(old(self)@.queues.take(i as int)),
                forall|j: int|
                    0 <= j < i ==> (#[trigger] self.listeners.values()[j])@ == offered(
                        old(self).listeners.values()[j]@,
                        value,
                    ),
                forall|j: int|
                    i <= j < n ==> #[trigger] self.listeners.values()[j] == old(
                        self,
                    ).listeners.values()[j],
            decreases n - i,
        {
            match self.listeners.get_mut(i).enqueue(value) {
                Ok(()) => {
                    ok += 1;
                },
                Err(_) => {
                    err += 1;
                },
            }
            proof {
                let queues = old(self)@.queues;
                assert(queues.take(i + 1).drop_last() =~= queues.take(i as int));
                assert(queues.take(i + 1).last() == queues[i as int]);
            }
            i += 1;
        }
        proof {
            let queues = old(self)@.queues;
            assert(queues.take(n as int) =~= queues);
            assert(self@.queues =~= old(self)@.emitted(value).queues);
            assert forall|j: int| 0 <= j < self@.queues.len() implies (#[trigger] self@.queues[j]).wf()
                && self@.queues[j].capacity == self@.capacity by {
                assert(queues[j].wf());
            }
        }
        if err == 0 {
            Ok(ok)
        } else {
            Err((ok, err))
        }
    }
}

/// No more queues can be full than there are queues; where all are full
/// the count is their number, and where none is it is zero.
pub proof fn lemma_full_count<T>(queues: Seq<QueueView<T>>)
    ensures
        full_count(queues) <= queues.len(),
        (forall|j: int| 0 <= j < queues.len() ==> (#[trigger] queues[j]).is_full()) ==> full_count(
            queues,
        ) == queues.len(),
        (forall|j: int| 0 <= j < queues.len() ==> !(#[trigger] queues[j]).is_full()) ==> full_count(
            queues,
        ) == 0,
    decreases queues.len(),
{
    if queues.len() > 0 {
        lemma_full_count(queues.drop_last());
        assert forall|j: int| 0 <= j < queues.drop_last().len() implies queues.drop_last()[j]
            == queues[j] by {}
    }
}

/// An emission of a plainly copied value is an emission in which every
/// clone is the value itself.
pub proof fn lemma_emitted_is_emission<T: Clone>(bus: EventView<T>, value: T)
    ensures
        emission(bus, value, bus.emitted(value)),
{
    let after = bus.emitted(value);
    assert forall|i: int| 0 <= i < bus.queues.len() implies delivered(
        bus.queues[i],
        value,
        #[trigger] after.queues[i],
    ) by {
        if !bus.queues[i].is_full() {
            assert(after.queues[i].items.last() == value);
        }
    }
}

/// An emission keeps the bus well-formed.
pub proof fn lemma_emission_keeps_wf<T: Clone>(before: EventView<T>, value: T, after: EventView<T>)
    requires
        before.wf(),
        emission(before, value, after),
    ensures
        after.wf(),
{
    assert forall|i: int| 0 <= i < after.queues.len() implies (#[trigger] after.queues[i]).wf()
        && after.queues[i].capacity == after.capacity by {
        assert(before.queues[i].wf());
        assert(delivered(before.queues[i], value, after.queues[i]));
    }
}

/// Emissions into empty subscriptions, as long as the capacity is not used
/// up: after `steps` of them every subscription holds one clone of each
/// emitted value, in the order of emission, and each of these emissions was
/// accepted by all subscriptions.
pub proof fn lemma_emissions_accepted<T: Clone>(
    trace: Seq<EventView<T>>,
    values: Seq<T>,
    steps: int,
)
    requires
        trace.len() == values.len() + 1,
        trace[0].wf(),
        forall|j: int| 0 <= j < trace[0].queues.len() ==> (#[trigger] trace[0].queues[j]).items.len() == 0,
        forall|i: int| 0 <= i < values.len() ==> emission(trace[i], values[i], #[trigger] trace[i + 1]),
        0 <= steps <= values.len(),
        steps <= trace[0].capacity,
    ensures
        trace[steps].wf(),
        trace[steps].keys == trace[0].keys,
        trace[steps].capacity == trace[0].capacity,
        trace[steps].queues.len() == trace[0].queues.len(),
        forall|j: int|
            0 <= j < trace[0].queues.len() ==> (#[trigger] trace[steps].queues[j]).items.len() == steps,
        forall|j: int, i: int|
            0 <= j < trace[0].queues.len() && 0 <= i < steps ==> cloned(
                values[i],
                #[trigger] trace[steps].queues[j].items[i],
            ),
        forall|i: int|
            0 <= i < steps ==> (#[trigger] trace[i]).outcome() == Ok::<usize, (usize, usize)>(
                trace[0].queues.len() as usize,
            ),
    decreases steps,
{
    if steps > 0 {
        lemma_emissions_accepted(trace, values, steps - 1);
        let before = trace[steps - 1];
        let after = trace[steps - 1 + 1];
        assert(emission(before, values[steps - 1], after));
        lemma_emission_keeps_wf(before, values[steps - 1], after);
        assert forall|j: int| 0 <= j < trace[0].queues.len() implies (#[trigger] after.queues[j]).items.len()
            == steps && (forall|i: int|
            0 <= i < steps ==> cloned(values[i], #[trigger] after.queues[j].items[i])) by {
            assert(before.queues[j].wf());
            assert(before.queues[j].items.len() == steps - 1);
            assert(delivered(before.queues[j], values[steps - 1], after.queues[j]));
            assert forall|i: int| 0 <= i < steps implies cloned(
                values[i],
                #[trigger] after.queues[j].items[i],
            ) by {
                if i < steps - 1 {
                    assert(after.queues[j].items[i] == before.queues[j].items[i]);
                }
            }
        }
        assert forall|j: int| 0 <= j < before.queues.len() implies !(#[trigger] before.queues[j]).is_full() by {
            assert(before.queues[j].wf());
            assert(before.queues[j].items.len() == steps - 1);
        }
        lemma_full_count(before.queues);
    }
}

/// Filling every subscription of a bus: after as many emissions into empty
/// subscriptions as the capacity allows, one more emission is rejected by all
/// of them, while each still holds the clones it accepted, and the bus stays
/// exactly as it was.
pub proof fn lemma_fill_then_reject<T: Clone>(
    trace: Seq<EventView<T>>,
    values: Seq<T>,
    extra: T,
    after: EventView<T>,
)
    requires
        trace.len() == values.len() + 1,
        trace[0].wf(),
        forall|j: int| 0 <= j < trace[0].queues.len() ==> (#[trigger] trace[0].queues[j]).items.len() == 0,
        forall|i: int| 0 <= i < values.len() ==> emission(trace[i], values[i], #[trigger] trace[i + 1]),
        values.len() == trace[0].capacity,
        emission(trace.last(), extra, after),
    ensures
        trace.last().rejections() == trace[0].queues.len(),
        trace.last().queues.len() == trace[0].queues.len(),
        trace.last().outcome() == if trace[0].queues.len() == 0 {
            Ok::<usize, (usize, usize)>(0)
        } else {
            Err::<usize, (usize, usize)>((0, trace[0].queues.len() as usize))
        },
        after == trace.last(),
        forall|j: int|
            0 <= j < trace[0].queues.len() ==> (#[trigger] after.queues[j]).items.len()
                == values.len(),
{
    lemma_emissions_accepted(trace, values, values.len() as int);
    let last = trace.last();
    assert(last == trace[values.len() as int]);
    assert forall|j: int| 0 <= j < last.queues.len() implies (#[trigger] last.queues[j]).is_full() by {
        assert(last.queues[j].wf());
    }
    lemma_full_count(last.queues);
    assert forall|j: int| 0 <= j < last.queues.len() implies after.queues[j] == last.queues[j] by {
        assert(delivered(last.queues[j], extra, after.queues[j]));
    }
    assert(after.queues =~= last.queues);
}

/// A new subscription starts empty and leaves every other subscription
/// with its key and its queue.
pub proof fn lemma_joined<T>(bus: EventView<T>, key: usize)
    requires
        bus.wf(),
        !bus.contains(key),
    ensures
        bus.joined(key).wf(),
        bus.joined(key).contains(key),
        bus.joined(key).queue(key) == QueueView::<T>::empty(bus.capacity),
        bus.joined(key).keys.len() == bus.keys.len() + 1,
        forall|other: usize| #[trigger]
            bus.contains(other) ==> bus.joined(key).contains(other) && bus.joined(key).queue(other)
                == bus.queue(other),
{
    lemma_key_joined(bus.keys, key);
    assert forall|other: usize| #[trigger] bus.contains(other) implies bus.joined(key).contains(
        other,
    ) && bus.joined(key).queue(other) == bus.queue(other) by {
        let at = bus.keys.index_of(other);
        assert(0 <= at < bus.keys.len() && bus.keys[at] == other);
    }
}

/// A subscription that is dropped takes its key and its queue with it; the
/// count of subscriptions falls by one, and every other subscription keeps
/// its key and its queue.
pub proof fn lemma_unlistened<T>(bus: EventView<T>, key: usize)
    requires
        bus.wf(),
        bus.contains(key),
    ensures
        bus.unlistened(key).wf(),
        bus.unlistened(key).alive == bus.alive,
        !bus.unlistened(key).contains(key),
        bus.unlistened(key).keys.len() == bus.keys.len() - 1,
        forall|other: usize| #[trigger]
            bus.contains(other) && other != key ==> bus.unlistened(key).contains(other)
                && bus.unlistened(key).queue(other) == bus.queue(other),
{
    lemma_key_left(bus.keys, key);
    let place = bus.place(key);
    assert(0 <= place < bus.keys.len() && bus.keys[place] == key);
    let rest = bus.unlistened(key);
    assert forall|i: int| 0 <= i < rest.queues.len() implies (#[trigger] rest.queues[i]).wf()
        && rest.queues[i].capacity == rest.capacity by {
        if i == place {
            assert(bus.queues[bus.queues.len() - 1].wf());
        } else {
            assert(bus.queues[i].wf());
        }
    }
    assert forall|other: usize| #[trigger] bus.contains(other) && other != key implies rest.contains(
        other,
    ) && rest.queue(other) == bus.queue(other) by {
        let at = bus.keys.index_of(other);
        assert(0 <= at < bus.keys.len() && bus.keys[at] == other);
        if other == bus.keys.last() {
            lemma_place_of(bus.keys, bus.keys.len() - 1);
        }
    }
}

/// A pull touches the queue of its own subscription only, where it takes the
/// oldest item or parks the waker; it keeps the bus well-formed.
pub proof fn lemma_pulled<T>(bus: EventView<T>, key: usize, waker: Waker)
    requires
        bus.wf(),
        bus.contains(key),
    ensures
        bus.pulled(key, waker).wf(),
        bus.pulled(key, waker).keys == bus.keys,
        bus.pulled(key, waker).queue(key) == if bus.queue(key).items.len() > 0 {
            bus.queue(key).popped()
        } else if bus.alive {
            bus.queue(key).parked(waker)
        } else {
            bus.queue(key)
        },
        forall|other: usize| #[trigger]
            bus.contains(other) && other != key ==> bus.pulled(key, waker).queue(other) == bus.queue(
                other,
            ),
{
    let place = bus.place(key);
    assert(0 <= place < bus.keys.len() && bus.keys[place] == key);
    let after = bus.pulled(key, waker);
    assert forall|i: int| 0 <= i < after.queues.len() implies (#[trigger] after.queues[i]).wf()
        && after.queues[i].capacity == after.capacity by {
        assert(bus.queues[i].wf());
    }
    assert forall|other: usize| #[trigger] bus.contains(other) && other != key implies after.queue(
        other,
    ) == bus.queue(other) by {
        let at = bus.keys.index_of(other);
        assert(0 <= at < bus.keys.len() && bus.keys[at] == other);
    }
}

/// An emission of a plainly copied value reaches every subscription by its
/// key: one with room gets the value as its last item, a full one stays as
/// it was.
pub proof fn lemma_emitted<T>(bus: EventView<T>, value: T)
    requires
        bus.wf(),
    ensures
        bus.emitted(value).wf(),
        bus.emitted(value).keys == bus.keys,
        forall|key: usize| #[trigger]
            bus.contains(key) ==> bus.emitted(value).queue(key) == offered(bus.queue(key), value),
{
    let after = bus.emitted(value);
    assert forall|i: int| 0 <= i < after.queues.len() implies (#[trigger] after.queues[i]).wf()
        && after.queues[i].capacity == after.capacity by {
        assert(bus.queues[i].wf());
    }
    assert forall|key: usize| #[trigger] bus.contains(key) implies after.queue(key) == offered(
        bus.queue(key),
        value,
    ) by {
        let at = bus.keys.index_of(key);
        assert(0 <= at < bus.keys.len() && bus.keys[at] == key);
    }
}

/// A subscription delivers what it buffers in the order in which it accepted
/// it: after as many pulls as items are buffered, or fewer, the oldest items
/// are gone, the next pull yields the oldest that is left, and no other
/// subscription has been touched.
pub proof fn lemma_pulls_are_fifo<T>(bus: EventView<T>, key: usize, wakers: Seq<Waker>)
    requires
        bus.wf(),
        bus.contains(key),
        wakers.len() <= bus.queue(key).items.len(),
    ensures
        bus.pulled_all(key, wakers).wf(),
        bus.pulled_all(key, wakers).keys == bus.keys,
        bus.pulled_all(key, wakers).alive == bus.alive,
        bus.pulled_all(key, wakers).queue(key) == (QueueView {
            items: bus.queue(key).items.skip(wakers.len() as int),
            ..bus.queue(key)
        }),
        wakers.len() < bus.queue(key).items.len() ==> bus.pulled_all(key, wakers).pull_result(key)
            == Poll::Ready(Some(bus.queue(key).items[wakers.len() as int])),
        forall|other: usize| #[trigger]
            bus.contains(other) && other != key ==> bus.pulled_all(key, wakers).queue(other)
                == bus.queue(other),
    decreases wakers.len(),
{
    let items = bus.queue(key).items;
    if wakers.len() == 0 {
        assert(items.skip(0) =~= items);
    } else {
        lemma_pulls_are_fifo(bus, key, wakers.drop_last());
        let before = bus.pulled_all(key, wakers.drop_last());
        assert(before.contains(key));
        lemma_pulled(before, key, wakers.last());
        assert(before.queue(key).items.drop_first() =~= items.skip(wakers.len() as int));
        assert forall|other: usize| #[trigger] bus.contains(other) && other != key implies bus.pulled_all(
            key,
            wakers,
        ).queue(other) == bus.queue(other) by {
            assert(before.contains(other));
        }
    }
}

/// The end of the bus reaches every subscription: its waiter has been woken,
/// its buffered items stay, and once they are drained a pull reports the end
/// of the sequence.
pub proof fn lemma_closed<T>(bus: EventView<T>, key: usize)
    requires
        bus.wf(),
        bus.contains(key),
    ensures
        bus.closed().wf(),
        !bus.closed().alive,
        bus.closed().keys == bus.keys,
        bus.closed().queue(key) == bus.queue(key).woken(),
        bus.queue(key).items.len() == 0 ==> bus.closed().pull_result(key) == Poll::<
            Option<T>,
        >::Ready(None),
        bus.queue(key).items.len() > 0 ==> bus.closed().pull_result(key) == Poll::Ready(
            Some(bus.queue(key).items[0]),
        ),
        forall|waker: Waker|
            bus.queue(key).items.len() == 0 ==> #[trigger] bus.closed().pulled(key, waker)
                == bus.closed(),
{
    let after = bus.closed();
    let at = bus.keys.index_of(key);
    assert(0 <= at < bus.keys.len() && bus.keys[at] == key);
    assert forall|i: int| 0 <= i < after.queues.len() implies (#[trigger] after.queues[i]).wf()
        && after.queues[i].capacity == after.capacity by {
        assert(bus.queues[i].wf());
    }
}

} // verus!
