use mozkit::{Event, Poll};
use std::sync::{Arc, Mutex};
use std::task::{Wake, Waker};

struct Bell {
    rings: Mutex<usize>,
}

impl Wake for Bell {
    fn wake(self: Arc<Self>) {
        *self.rings.lock().unwrap() += 1;
    }
}

fn bell() -> (Arc<Bell>, Waker) {
    let bell = Arc::new(Bell { rings: Mutex::new(0) });
    (bell.clone(), Waker::from(bell))
}

fn rings(bell: &Arc<Bell>) -> usize {
    *bell.rings.lock().unwrap()
}

fn next<T>(event: &mut Event<T>, key: usize) -> Option<T> {
    match event.poll_next(key, bell().1) {
        Poll::Ready(item) => item,
        Poll::Pending => panic!("subscription {} is pending", key),
    }
}

#[test]
fn event_i32() {
    let mut event = Event::<i32>::new(usize::MAX);
    assert_eq!(event.listener_count(), 0);
    let l1 = event.listen();
    assert_eq!(event.listener_count(), 1);
    assert_eq!(event.try_emit(1), Ok(1));
    assert_eq!(next(&mut event, l1), Some(1));
    let l2 = event.listen();
    assert_eq!(event.listener_count(), 2);
    assert_eq!(event.try_emit(2), Ok(2));
    let l3 = event.listen();
    assert_eq!(event.listener_count(), 3);
    assert_eq!(event.try_emit(3), Ok(3));
    assert_eq!(next(&mut event, l2), Some(2));
    assert_eq!(next(&mut event, l1), Some(2));
    assert_eq!(next(&mut event, l1), Some(3));
    assert_eq!(next(&mut event, l2), Some(3));
    assert_eq!(next(&mut event, l3), Some(3));
}

#[test]
fn event_drop_event() {
    let mut event = Event::<i32>::new(usize::MAX);
    assert_eq!(event.listener_count(), 0);
    let listener = event.listen();
    assert_eq!(event.listener_count(), 1);
    assert_eq!(event.try_emit(1), Ok(1));
    event.close();
    assert!(!event.is_alive());
    assert_eq!(next(&mut event, listener), Some(1));
    assert_eq!(next(&mut event, listener), None);
    assert_eq!(next(&mut event, listener), None);
}

#[test]
fn event_drop_listener() {
    let mut event = Event::<i32>::new(usize::MAX);
    assert_eq!(event.listener_count(), 0);
    let l1 = event.listen();
    assert_eq!(event.listener_count(), 1);
    let l2 = event.listen();
    assert_eq!(event.listener_count(), 2);
    assert_eq!(event.try_emit(1), Ok(2));
    assert_eq!(next(&mut event, l1), Some(1));
    event.unlisten(l2);
    assert_eq!(event.listener_count(), 1);
    assert_eq!(event.try_emit(2), Ok(1));
    let l3 = event.listen();
    assert_eq!(event.listener_count(), 2);
    assert_eq!(event.try_emit(3), Ok(2));
    assert_eq!(next(&mut event, l1), Some(2));
    assert_eq!(next(&mut event, l3), Some(3));
    assert_eq!(next(&mut event, l1), Some(3));
}

#[test]
fn event_capacity() {
    let mut event = Event::<i32>::new(3);
    let l1 = event.listen();
    assert_eq!(event.try_emit(1), Ok(1));
    assert_eq!(event.try_emit(2), Ok(1));
    let l2 = event.listen();
    assert_eq!(event.try_emit(3), Ok(2));
    assert_eq!(event.try_emit(4), Err((1, 1)));
    assert_eq!(next(&mut event, l1), Some(1));
    assert_eq!(next(&mut event, l2), Some(3));
    assert_eq!(event.try_emit(5), Ok(2));
    assert_eq!(event.try_emit(6), Err((1, 1)));
    assert_eq!(event.try_emit(7), Err((0, 2)));
    assert_eq!(next(&mut event, l1), Some(2));
    assert_eq!(next(&mut event, l1), Some(3));
    assert_eq!(next(&mut event, l1), Some(5));
    assert_eq!(event.poll_next(l1, bell().1), Poll::Pending);
    assert_eq!(next(&mut event, l2), Some(4));
    assert_eq!(next(&mut event, l2), Some(5));
    assert_eq!(next(&mut event, l2), Some(6));
    assert_eq!(event.poll_next(l2, bell().1), Poll::Pending);
}

#[test]
fn event_fill_every_subscription_then_all_reject() {
    for capacity in 1..=6usize {
        for count in 0..=5usize {
            let mut event = Event::<usize>::new(capacity);
            let keys: Vec<usize> = (0..count).map(|_| event.listen()).collect();
            for value in 0..capacity {
                assert_eq!(event.try_emit(value), Ok(count));
            }
            let expected = if count == 0 { Ok(0) } else { Err((0, count)) };
            assert_eq!(event.try_emit(capacity), expected);
            for key in keys {
                for value in 0..capacity {
                    assert_eq!(next(&mut event, key), Some(value));
                }
                assert_eq!(event.poll_next(key, bell().1), Poll::Pending);
            }
        }
    }
}

#[test]
fn event_emit_without_subscriptions() {
    let mut event = Event::<u8>::new(1);
    assert_eq!(event.try_emit(1), Ok(0));
    assert_eq!(event.try_emit_copy(1), Ok(0));
    event.emit(1);
    assert_eq!(event.listener_count(), 0);
}

#[test]
fn event_emit_delivers_like_try_emit() {
    let mut event = Event::<String>::new(1);
    let l1 = event.listen();
    event.emit(String::from("a"));
    event.emit(String::from("b"));
    assert_eq!(next(&mut event, l1), Some(String::from("a")));
    assert_eq!(event.poll_next(l1, bell().1), Poll::Pending);
}

#[test]
fn event_emit_copy_matches_try_emit() {
    let mut event = Event::<(u8, u8)>::new(2);
    let l1 = event.listen();
    let l2 = event.listen();
    assert_eq!(event.try_emit_copy((1, 2)), Ok(2));
    assert_eq!(next(&mut event, l1), Some((1, 2)));
    assert_eq!(event.try_emit_copy((3, 4)), Ok(2));
    assert_eq!(event.try_emit_copy((5, 6)), Err((1, 1)));
    assert_eq!(next(&mut event, l2), Some((1, 2)));
    assert_eq!(next(&mut event, l2), Some((3, 4)));
    assert_eq!(next(&mut event, l1), Some((3, 4)));
    assert_eq!(next(&mut event, l1), Some((5, 6)));
}

#[test]
fn event_emit_wakes_only_who_accepted() {
    let mut event = Event::<u8>::new(1);
    let l1 = event.listen();
    let l2 = event.listen();
    assert_eq!(event.try_emit(1), Ok(2));
    assert_eq!(next(&mut event, l2), Some(1));
    let (b2, w2) = bell();
    assert_eq!(event.poll_next(l2, w2), Poll::Pending);
    assert_eq!(event.try_emit(2), Err((1, 1)));
    assert_eq!(rings(&b2), 1);
    assert_eq!(next(&mut event, l1), Some(1));
    let (b1, w1) = bell();
    assert_eq!(event.poll_next(l1, w1), Poll::Pending);
    assert_eq!(rings(&b1), 0);
    assert_eq!(event.try_emit(3), Err((1, 1)));
    assert_eq!(rings(&b1), 1);
    assert_eq!(rings(&b2), 1);
}

#[test]
fn event_close_wakes_every_suspended_subscription_once() {
    let mut event = Event::<u8>::new(2);
    let l1 = event.listen();
    let l2 = event.listen();
    let l3 = event.listen();
    let (b1, w1) = bell();
    let (b2, w2) = bell();
    assert_eq!(event.poll_next(l1, w1), Poll::Pending);
    assert_eq!(event.poll_next(l2, w2), Poll::Pending);
    event.close();
    assert_eq!(rings(&b1), 1);
    assert_eq!(rings(&b2), 1);
    event.close();
    assert_eq!(rings(&b1), 1);
    assert_eq!(rings(&b2), 1);
    assert_eq!(next(&mut event, l1), None);
    assert_eq!(next(&mut event, l2), None);
    assert_eq!(next(&mut event, l3), None);
}

#[test]
fn event_pull_after_close_parks_nothing() {
    let mut event = Event::<u8>::new(2);
    let l1 = event.listen();
    event.close();
    let (b, w) = bell();
    assert_eq!(event.poll_next(l1, w), Poll::Ready(None));
    event.close();
    assert_eq!(rings(&b), 0);
}

#[test]
fn event_unlisten_keeps_the_other_keys() {
    let mut event = Event::<u8>::new(4);
    let keys: Vec<usize> = (0..5).map(|_| event.listen()).collect();
    assert_eq!(event.try_emit(1), Ok(5));
    event.unlisten(keys[1]);
    assert!(!event.is_listening(keys[1]));
    event.unlisten(keys[1]);
    assert_eq!(event.listener_count(), 4);
    assert_eq!(event.try_emit(2), Ok(4));
    event.unlisten(keys[4]);
    event.unlisten(keys[0]);
    assert_eq!(event.listener_count(), 2);
    for key in [keys[2], keys[3]] {
        assert!(event.is_listening(key));
        assert_eq!(next(&mut event, key), Some(1));
        assert_eq!(next(&mut event, key), Some(2));
        assert_eq!(event.poll_next(key, bell().1), Poll::Pending);
    }
}

#[test]
fn event_new_subscription_gets_an_unused_key() {
    let mut event = Event::<u8>::new(1);
    let l1 = event.listen();
    let l2 = event.listen();
    assert_ne!(l1, l2);
    event.unlisten(l1);
    let l3 = event.listen();
    assert_ne!(l3, l2);
    assert_eq!(l3, l1);
    assert_eq!(event.listener_count(), 2);
}

#[test]
fn event_new_subscription_misses_earlier_emissions() {
    let mut event = Event::<u8>::new(2);
    let l1 = event.listen();
    assert_eq!(event.try_emit(1), Ok(1));
    let l2 = event.listen();
    assert_eq!(event.poll_next(l2, bell().1), Poll::Pending);
    assert_eq!(next(&mut event, l1), Some(1));
}

#[test]
fn event_default_buffers_one() {
    let mut event = Event::<u8>::default();
    let l1 = event.listen();
    assert!(event.is_alive());
    assert_eq!(event.try_emit(1), Ok(1));
    assert_eq!(event.try_emit(2), Err((0, 1)));
    assert_eq!(next(&mut event, l1), Some(1));
}
