//! Cancellation by ownership: tasks wrapped through a scope end when the
//! scope does.

use crate::poll::Poll;
use crate::registry::{lemma_key_joined, lemma_key_left, Registry};
use crate::waker::wake;
use std::task::Waker;
use vstd::prelude::*;

verus! {

/// What a [`Scope`] holds, as mathematics.
pub struct ScopeView {
    /// The keys of the wrapped tasks that still exist, in the order in which
    /// they are woken.
    pub keys: Seq<usize>,
    /// The wake cell of each task, in the order of `keys`: the waiter that
    /// the end of the scope wakes, if one is parked.
    pub cells: Seq<Option<Waker>>,
    /// Whether the scope still exists.
    pub alive: bool,
}

impl ScopeView {
    /// A scope without tasks.
    pub open spec fn empty() -> Self {
        ScopeView { keys: Seq::empty(), cells: Seq::empty(), alive: true }
    }

    /// Every task has one key and one wake cell.
    pub open spec fn wf(self) -> bool {
        self.keys.len() == self.cells.len() && self.keys.no_duplicates()
    }

    /// Whether `key` names a wrapped task that still exists.
    pub open spec fn contains(self, key: usize) -> bool {
        self.keys.contains(key)
    }

    /// The place of task `key` in the order of waking.
    pub open spec fn place(self, key: usize) -> int {
        self.keys.index_of(key)
    }

    /// The wake cell of task `key`.
    pub open spec fn cell(self, key: usize) -> Option<Waker> {
        self.cells[self.place(key)]
    }

    /// The scope after a new task `key` has been wrapped: its cell is empty.
    pub open spec fn joined(self, key: usize) -> Self {
        ScopeView { keys: self.keys.push(key), cells: self.cells.push(None), ..self }
    }

    /// The scope after the task at `place` has gone: the last task takes its
    /// place.
    pub open spec fn left(self, place: int) -> Self {
        ScopeView {
            keys: self.keys.update(place, self.keys.last()).drop_last(),
            cells: self.cells.update(place, self.cells.last()).drop_last(),
            ..self
        }
    }

    /// The scope after task `key` has been dropped; a key that names no
    /// task changes nothing.
    pub open spec fn unwatched(self, key: usize) -> Self {
        if self.contains(key) {
            self.left(self.place(key))
        } else {
            self
        }
    }

    /// What a poll of a task's watcher returns: pending while the scope
    /// exists, ready once it is gone.
    pub open spec fn watch_result(self) -> Poll<()> {
        if self.alive {
            Poll::Pending
        } else {
            Poll::Ready(())
        }
    }

    /// The scope after task `key` has polled its watcher on behalf of
    /// `waker`: while the scope exists the waker replaces whatever the cell
    /// held, afterwards nothing changes.
    pub open spec fn watched(self, key: usize, waker: Waker) -> Self {
        if self.alive {
            ScopeView { cells: self.cells.update(self.place(key), Some(waker)), ..self }
        } else {
            self
        }
    }

    /// The scope after it has ended: every parked waiter has been taken out
    /// and woken.
    pub open spec fn closed(self) -> Self {
        ScopeView {
            cells: Seq::new(self.cells.len(), |i: int| None::<Waker>),
            alive: false,
            ..self
        }
    }
}

/// What a poll of a wrapped future reports, given what its watcher reported
/// and what its inner future would report: cancellation once the scope is
/// gone, whatever the inner future says.
pub open spec fn future_outcome<O>(watch: Poll<()>, inner: Poll<O>) -> Poll<Option<O>> {
    match watch {
        Poll::Ready(_) => Poll::Ready(None),
        Poll::Pending => lifted(inner),
    }
}

/// What a pull of a wrapped stream reports, given what its watcher reported
/// and what its inner stream would report: the end of the stream once the
/// scope is gone, whatever the inner stream says.
pub open spec fn stream_outcome<I>(watch: Poll<()>, inner: Poll<Option<I>>) -> Poll<Option<I>> {
    match watch {
        Poll::Ready(_) => Poll::Ready(None),
        Poll::Pending => inner,
    }
}

/// What a wrapped future reports once its inner future has been polled.
pub open spec fn lifted<O>(inner: Poll<O>) -> Poll<Option<O>> {
    match inner {
        Poll::Ready(output) => Poll::Ready(Some(output)),
        Poll::Pending => Poll::Pending,
    }
}

/// A cancellation scope: the tasks wrapped through it end as soon as they are
/// polled after the scope itself has ended.
///
/// The value is the state that the scope's owner and the wrapped tasks
/// share. [`Scope::wrap_future`], [`Scope::wrap_stream`] and [`Scope::close`]
/// act for the owner, [`Scope::poll_watcher`] and [`Scope::unwatch`] for a
/// wrapped task.
pub struct Scope {
    wakers: Registry<Option<Waker>>,
    alive: bool,
}

/// A future bound to a [`Scope`], with the key of its watcher.
pub struct ScopedFuture<F> {
    /// The key of the wake cell that the scope keeps for it.
    pub watcher: usize,
    /// The wrapped future.
    pub future: F,
}

/// A stream bound to a [`Scope`], with the key of its watcher.
pub struct ScopedStream<S> {
    /// The key of the wake cell that the scope keeps for it.
    pub watcher: usize,
    /// The wrapped stream.
    pub stream: S,
}

impl View for Scope {
    type V = ScopeView;

    closed spec fn view(&self) -> ScopeView {
        ScopeView { keys: self.wakers.order(), cells: self.wakers.values(), alive: self.alive }
    }
}

impl Default for Scope {
    /// A scope without tasks.
    fn default() -> (scope: Self)
        ensures
            scope.wf(),
            scope@ == ScopeView::empty(),
    {
        Scope::new()
    }
}

impl Scope {
    /// The registry of wake cells is consistent.
    pub closed spec fn wf(&self) -> bool {
        self.wakers.wf()
    }

    /// A well-formed scope has a well-formed view.
    pub proof fn lemma_view_wf(&self)
        requires
            self.wf(),
        ensures
            self@.wf(),
    {
        self.wakers.lemma_distinct();
    }

    /// Creates a scope without tasks.
    pub fn new() -> (scope: Self)
        ensures
            scope.wf(),
            scope@ == ScopeView::empty(),
    {
        Scope { wakers: Registry::new(), alive: true }
    }

    /// Whether the scope still exists.
    pub fn is_alive(&self) -> (alive: bool)
        ensures
            alive == self@.alive,
    {
        self.alive
    }

    /// Whether `key` names a wrapped task that still exists.
    pub fn is_watching(&self, key: usize) -> (found: bool)
        requires
            self.wf(),
        ensures
            found == self@.contains(key),
    {
        self.wakers.position(key).is_some()
    }

    /// The number of wrapped tasks that still exist.
    pub fn watcher_count(&self) -> (n: usize)
        requires
            self.wf(),
        ensures
            n == self@.keys.len(),
    {
        self.wakers.len()
    }

    /// Registers an empty wake cell for a new task and returns its key.
    pub fn watch(&mut self) -> (key: usize)
        requires
            old(self).wf(),
            old(self)@.alive,
        ensures
            final(self).wf(),
            !old(self)@.contains(key),
            final(self)@.contains(key),
            final(self)@ == old(self)@.joined(key),
    {
        let key = self.wakers.insert(None);
        proof {
            old(self).wakers.lemma_distinct();
            lemma_key_joined(old(self)@.keys, key);
        }
        key
    }

    /// Binds `future` to this scope.
    pub fn wrap_future<F>(&mut self, future: F) -> (wrapped: ScopedFuture<F>)
        requires
            old(self).wf(),
            old(self)@.alive,
        ensures
            final(self).wf(),
            !old(self)@.contains(wrapped.watcher),
            final(self)@.contains(wrapped.watcher),
            final(self)@ == old(self)@.joined(wrapped.watcher),
            wrapped.future == future,
    {
        let watcher = self.watch();
        ScopedFuture { watcher, future }
    }

    /// Binds `stream` to this scope.
    pub fn wrap_stream<S>(&mut self, stream: S) -> (wrapped: ScopedStream<S>)
        requires
            old(self).wf(),
            old(self)@.alive,
        ensures
            final(self).wf(),
            !old(self)@.contains(wrapped.watcher),
            final(self)@.contains(wrapped.watcher),
            final(self)@ == old(self)@.joined(wrapped.watcher),
            wrapped.stream == stream,
    {
        let watcher = self.watch();
        ScopedStream { watcher, stream }
    }

    /// One poll of task `key`'s watcher: ready once the scope has ended;
    /// before that `waker` is parked in the task's cell, replacing any
    /// earlier waiter, and the watcher is pending.
    pub fn poll_watcher(&mut self, key: usize, waker: Waker) -> (r: Poll<()>)
        requires
            old(self).wf(),
            old(self)@.contains(key),
        ensures
            final(self).wf(),
            r == old(self)@.watch_result(),
            final(self)@ == old(self)@.watched(key, waker),
    {
        if self.alive {
            let found = self.wakers.position(key);
            let cell = self.wakers.get_mut(found.unwrap());
            *cell = Some(waker);
            Poll::Pending
        } else {
            Poll::Ready(())
        }
    }

    /// Removes the wake cell of task `key`, if the task is known. The scope
    /// is otherwise unaffected.
    pub fn unwatch(&mut self, key: usize)
        requires
            old(self).wf(),
        ensures
            final(self).wf(),
            final(self)@ == old(self)@.unwatched(key),
    {
        let _ = self.wakers.remove(key);
    }

    /// Ends the scope: every parked waiter is taken out of its cell and
    /// woken, so that each suspended task is polled again and finds the scope
    /// gone.
    pub fn close(&mut self)
        requires
            old(self).wf(),
        ensures
            final(self).wf(),
            final(self)@ == old(self)@.closed(),
    {
        self.alive = false;
        let n = self.wakers.len();
        let mut i: usize = 0;
        while i < n
            invariant
                self.wakers.wf(),
                i <= n,
                n == self.wakers.values().len(),
                n == self.wakers.order().len(),
                self.wakers.order() == old(self).wakers.order(),
                !self.alive,
                forall|j: int| 0 <= j < i ==> (#[trigger] self.wakers.values()[j]).is_none(),
            decreases n - i,
        {
            let cell = self.wakers.get_mut(i);
            if let Some(waker) = cell.take() {
                wake(waker);
            }
            i += 1;
        }
        proof {
            assert(self@.cells =~= old(self)@.closed().cells);
        }
    }
}

impl<F> ScopedFuture<F> {
    /// One poll of a wrapped future, given what its watcher just reported.
    /// Once the scope is gone the task is cancelled and the inner future is
    /// left alone; before that the inner future is polled through
    /// `poll_inner` and its outcome handed on.
    pub fn poll<O, P: FnOnce(&mut F) -> Poll<O>>(&mut self, watch: Poll<()>, poll_inner: P) -> (r:
        Poll<Option<O>>)
        requires
            watch is Pending ==> forall|future: &mut F|
                *future == old(self).future ==> call_requires(poll_inner, (future,)),
        ensures
            final(self).watcher == old(self).watcher,
            watch is Ready ==> r == Poll::<Option<O>>::Ready(None) && final(self).future == old(
                self,
            ).future,
            watch is Pending ==> exists|future: &mut F, inner: Poll<O>|
                call_ensures(poll_inner, (future,), inner) && *future == old(self).future
                    && *final(future) == final(self).future && r == future_outcome(watch, inner),
    {
        match watch {
            Poll::Ready(()) => Poll::Ready(None),
            Poll::Pending => {
                let inner = poll_inner(&mut self.future);
                let r = match inner {
                    Poll::Ready(output) => Poll::Ready(Some(output)),
                    Poll::Pending => Poll::Pending,
                };
                assert(r == future_outcome(watch, inner));
                r
            },
        }
    }
}

impl<S> ScopedStream<S> {
    /// One pull of a wrapped stream, given what its watcher just reported.
    /// Once the scope is gone the stream has ended and the inner stream is
    /// left alone; before that the inner stream is polled through
    /// `poll_inner` and its outcome handed on unchanged.
    pub fn poll_next<I, P: FnOnce(&mut S) -> Poll<Option<I>>>(
        &mut self,
        watch: Poll<()>,
        poll_inner: P,
    ) -> (r: Poll<Option<I>>)
        requires
            watch is Pending ==> forall|stream: &mut S|
                *stream == old(self).stream ==> call_requires(poll_inner, (stream,)),
        ensures
            final(self).watcher == old(self).watcher,
            watch is Ready ==> r == Poll::<Option<I>>::Ready(None) && final(self).stream == old(
                self,
            ).stream,
            watch is Pending ==> exists|stream: &mut S, inner: Poll<Option<I>>|
                call_ensures(poll_inner, (stream,), inner) && *stream == old(self).stream
                    && *final(stream) == final(self).stream && r == stream_outcome(watch, inner),
    {
        match watch {
            Poll::Ready(()) => Poll::Ready(None),
            Poll::Pending => {
                let inner = poll_inner(&mut self.stream);
                assert(inner == stream_outcome(watch, inner));
                inner
            },
        }
    }
}

/// The end of a scope cancels every task wrapped through it: from then on
/// each poll of a task's watcher is ready, so a wrapped future reports
/// cancellation and a wrapped stream its end, whatever the inner task would
/// report. Every wake cell has been emptied, so no waiter is woken twice.
pub proof fn lemma_close_cancels<O, I>(scope: ScopeView, inner_future: Poll<O>, inner_stream: Poll<
    Option<I>,
>)
    ensures
        !scope.closed().alive,
        scope.closed().keys == scope.keys,
        scope.closed().watch_result() == Poll::Ready(()),
        future_outcome(scope.closed().watch_result(), inner_future) == Poll::<Option<O>>::Ready(None),
        stream_outcome(scope.closed().watch_result(), inner_stream) == Poll::<Option<I>>::Ready(None),
        forall|i: int| 0 <= i < scope.cells.len() ==> (#[trigger] scope.closed().cells[i]).is_none(),
{
}

/// The end of a scope is final: whatever its tasks do afterwards, polling
/// their watchers or going away, the scope stays ended, each poll stays
/// ready and no waiter is parked again.
pub proof fn lemma_ended_stays_ended(scope: ScopeView, key: usize, waker: Waker)
    requires
        !scope.alive,
    ensures
        scope.watched(key, waker) == scope,
        !scope.unwatched(key).alive,
        !scope.closed().alive,
        scope.watched(key, waker).watch_result() == Poll::Ready(()),
        scope.unwatched(key).watch_result() == Poll::Ready(()),
{
}

/// While the scope exists a poll of a watcher is pending and parks the
/// caller's waker in the task's own cell, replacing any waiter parked there
/// before and leaving the cells of all other tasks as they were.
pub proof fn lemma_watch_parks(scope: ScopeView, key: usize, waker: Waker)
    requires
        scope.wf(),
        scope.alive,
        scope.contains(key),
    ensures
        scope.watch_result() == Poll::<()>::Pending,
        scope.watched(key, waker).wf(),
        scope.watched(key, waker).keys == scope.keys,
        scope.watched(key, waker).cell(key) == Some(waker),
        forall|other: usize| #[trigger]
            scope.contains(other) && other != key ==> scope.watched(key, waker).cell(other)
                == scope.cell(other),
{
    let place = scope.place(key);
    assert(0 <= place < scope.keys.len() && scope.keys[place] == key);
    assert forall|other: usize| #[trigger] scope.contains(other) && other != key implies scope.watched(
        key,
        waker,
    ).cell(other) == scope.cell(other) by {
        let at = scope.place(other);
        assert(0 <= at < scope.keys.len() && scope.keys[at] == other);
    }
}

/// A newly wrapped task starts with an empty wake cell and leaves every
/// other task with its key and its cell.
pub proof fn lemma_joined(scope: ScopeView, key: usize)
    requires
        scope.wf(),
        !scope.contains(key),
    ensures
        scope.joined(key).wf(),
        scope.joined(key).contains(key),
        scope.joined(key).cell(key).is_none(),
        forall|other: usize| #[trigger]
            scope.contains(other) ==> scope.joined(key).contains(other) && scope.joined(key).cell(
                other,
            ) == scope.cell(other),
{
    lemma_key_joined(scope.keys, key);
    assert forall|other: usize| #[trigger] scope.contains(other) implies scope.joined(key).contains(
        other,
    ) && scope.joined(key).cell(other) == scope.cell(other) by {
        let at = scope.keys.index_of(other);
        assert(0 <= at < scope.keys.len() && scope.keys[at] == other);
    }
}

/// A wrapped task that is dropped takes its key and its wake cell with it;
/// the scope is otherwise unaffected: every other task keeps its key and its
/// cell, and the scope lives on or stays ended as before.
pub proof fn lemma_unwatched(scope: ScopeView, key: usize)
    requires
        scope.wf(),
        scope.contains(key),
    ensures
        scope.unwatched(key).wf(),
        scope.unwatched(key).alive == scope.alive,
        !scope.unwatched(key).contains(key),
        scope.unwatched(key).keys.len() == scope.keys.len() - 1,
        forall|other: usize| #[trigger]
            scope.contains(other) && other != key ==> scope.unwatched(key).contains(other)
                && scope.unwatched(key).cell(other) == scope.cell(other),
{
    lemma_key_left(scope.keys, key);
    let place = scope.place(key);
    assert(0 <= place < scope.keys.len() && scope.keys[place] == key);
    let rest = scope.unwatched(key);
    assert forall|other: usize| #[trigger] scope.contains(other) && other != key implies rest.contains(
        other,
    ) && rest.cell(other) == scope.cell(other) by {
        let at = scope.keys.index_of(other);
        assert(0 <= at < scope.keys.len() && scope.keys[at] == other);
        if other == scope.keys.last() {
            crate::registry::lemma_place_of(scope.keys, scope.keys.len() - 1);
        }
    }
}

} // verus!
