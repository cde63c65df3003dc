use mozkit::{Poll, Scope, ScopedFuture, ScopedStream};
use std::sync::{Arc, Mutex};
use std::task::{Wake, Waker};

struct Bell {
    rings: Mutex<usize>,
}

impl Wake for Bell {
    fn wake(self: Arc<Self>) {
        *self.rings.lock().unwrap() += 1;
    }
}

fn bell() -> (Arc<Bell>, Waker) {
    let bell = Arc::new(Bell { rings: Mutex::new(0) });
    (bell.clone(), Waker::from(bell))
}

fn rings(bell: &Arc<Bell>) -> usize {
    *bell.rings.lock().unwrap()
}

fn poll_future<F, O>(
    scope: &mut Scope,
    task: &mut ScopedFuture<F>,
    inner: Poll<O>,
) -> Poll<Option<O>> {
    let watch = scope.poll_watcher(task.watcher, bell().1);
    task.poll(watch, |_future| inner)
}

fn poll_stream<S, I>(
    scope: &mut Scope,
    task: &mut ScopedStream<S>,
    inner: Poll<Option<I>>,
) -> Poll<Option<I>> {
    let watch = scope.poll_watcher(task.watcher, bell().1);
    task.poll_next(watch, |_stream| inner)
}

#[test]
fn scope_wrapped_tasks_end_with_the_scope() {
    let mut scope = Scope::new();
    let mut ready = scope.wrap_future("ready");
    let mut pending = scope.wrap_future("pending");
    let mut stream = scope.wrap_stream("repeat");
    assert_eq!(scope.watcher_count(), 3);

    assert_eq!(poll_future(&mut scope, &mut ready, Poll::Ready(1)), Poll::Ready(Some(1)));
    assert_eq!(poll_future(&mut scope, &mut pending, Poll::<i32>::Pending), Poll::Pending);
    assert_eq!(poll_stream(&mut scope, &mut stream, Poll::Ready(Some(1))), Poll::Ready(Some(1)));
    assert_eq!(poll_stream(&mut scope, &mut stream, Poll::Ready(Some(1))), Poll::Ready(Some(1)));
    scope.close();
    assert_eq!(poll_future(&mut scope, &mut pending, Poll::<i32>::Pending), Poll::Ready(None));
    assert_eq!(poll_stream(&mut scope, &mut stream, Poll::Ready(Some(1))), Poll::Ready(None));
}

#[test]
fn scope_keeps_the_wrapped_value() {
    let mut scope = Scope::new();
    let future = scope.wrap_future(String::from("inner"));
    let stream = scope.wrap_stream(vec![1, 2, 3]);
    assert_eq!(future.future, "inner");
    assert_eq!(stream.stream, vec![1, 2, 3]);
    assert_ne!(future.watcher, stream.watcher);
    assert!(scope.is_watching(future.watcher));
    assert!(scope.is_watching(stream.watcher));
}

#[test]
fn scope_inner_task_is_not_polled_after_the_end() {
    let mut scope = Scope::new();
    let mut future = scope.wrap_future(0);
    let mut stream = scope.wrap_stream(0);
    scope.close();
    let watch = scope.poll_watcher(future.watcher, bell().1);
    assert_eq!(watch, Poll::Ready(()));
    let polled = future.poll(watch, |polls: &mut i32| {
        *polls += 1;
        Poll::Ready(5)
    });
    assert_eq!(polled, Poll::Ready(None));
    assert_eq!(future.future, 0);
    let watch = scope.poll_watcher(stream.watcher, bell().1);
    let pulled = stream.poll_next(watch, |polls: &mut i32| {
        *polls += 1;
        Poll::Ready(Some(5))
    });
    assert_eq!(pulled, Poll::Ready(None));
    assert_eq!(stream.stream, 0);
}

#[test]
fn scope_inner_outcome_is_handed_on_while_alive() {
    let mut scope = Scope::new();
    let mut future = scope.wrap_future(vec!['x']);
    let watch = scope.poll_watcher(future.watcher, bell().1);
    assert_eq!(future.poll(watch, |_inner| Poll::<char>::Pending), Poll::Pending);
    let watch = scope.poll_watcher(future.watcher, bell().1);
    assert_eq!(
        future.poll(watch, |inner| match inner.pop() {
            Some(item) => Poll::Ready(item),
            None => Poll::Pending,
        }),
        Poll::Ready(Some('x'))
    );
    assert!(future.future.is_empty());

    let mut stream = scope.wrap_stream(vec![1, 2]);
    for expected in [Some(2), Some(1), None, None] {
        let watch = scope.poll_watcher(stream.watcher, bell().1);
        assert_eq!(stream.poll_next(watch, |inner| Poll::Ready(inner.pop())), Poll::Ready(expected));
    }
    let watch = scope.poll_watcher(stream.watcher, bell().1);
    assert_eq!(stream.poll_next(watch, |_inner| Poll::<Option<i32>>::Pending), Poll::Pending);
}

#[test]
fn scope_close_wakes_every_waiter_once() {
    let mut scope = Scope::new();
    let k1 = scope.watch();
    let k2 = scope.watch();
    let k3 = scope.watch();
    let (b1, w1) = bell();
    let (b2, w2) = bell();
    assert_eq!(scope.poll_watcher(k1, w1), Poll::Pending);
    assert_eq!(scope.poll_watcher(k2, w2), Poll::Pending);
    assert!(scope.is_alive());
    scope.close();
    assert!(!scope.is_alive());
    assert_eq!(rings(&b1), 1);
    assert_eq!(rings(&b2), 1);
    scope.close();
    assert_eq!(rings(&b1), 1);
    assert_eq!(rings(&b2), 1);
    for key in [k1, k2, k3] {
        assert_eq!(scope.poll_watcher(key, bell().1), Poll::Ready(()));
    }
}

#[test]
fn scope_end_is_final() {
    let mut scope = Scope::new();
    let key = scope.watch();
    scope.close();
    let (b, w) = bell();
    for _ in 0..4 {
        assert_eq!(scope.poll_watcher(key, bell().1), Poll::Ready(()));
    }
    assert_eq!(scope.poll_watcher(key, w), Poll::Ready(()));
    scope.close();
    assert_eq!(rings(&b), 0);
    scope.unwatch(key);
    assert!(!scope.is_alive());
    assert_eq!(scope.watcher_count(), 0);
}

#[test]
fn scope_last_registrant_wins() {
    let mut scope = Scope::new();
    let key = scope.watch();
    let (first, w1) = bell();
    let (second, w2) = bell();
    assert_eq!(scope.poll_watcher(key, w1), Poll::Pending);
    assert_eq!(scope.poll_watcher(key, w2), Poll::Pending);
    scope.close();
    assert_eq!(rings(&first), 0);
    assert_eq!(rings(&second), 1);
}

#[test]
fn scope_dropped_task_is_not_woken() {
    let mut scope = Scope::new();
    let k1 = scope.watch();
    let k2 = scope.watch();
    let k3 = scope.watch();
    let (b1, w1) = bell();
    let (b2, w2) = bell();
    let (b3, w3) = bell();
    assert_eq!(scope.poll_watcher(k1, w1), Poll::Pending);
    assert_eq!(scope.poll_watcher(k2, w2), Poll::Pending);
    assert_eq!(scope.poll_watcher(k3, w3), Poll::Pending);
    scope.unwatch(k1);
    assert!(scope.is_alive());
    assert!(!scope.is_watching(k1));
    assert!(scope.is_watching(k2));
    assert!(scope.is_watching(k3));
    assert_eq!(scope.watcher_count(), 2);
    scope.unwatch(k1);
    assert_eq!(scope.watcher_count(), 2);
    scope.close();
    assert_eq!(rings(&b1), 0);
    assert_eq!(rings(&b2), 1);
    assert_eq!(rings(&b3), 1);
}

#[test]
fn scope_default_is_empty_and_alive() {
    let scope = Scope::default();
    assert!(scope.is_alive());
    assert_eq!(scope.watcher_count(), 0);
    assert!(!scope.is_watching(0));
}
