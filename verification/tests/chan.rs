use mozkit::{Channel, ChannelSendError, Poll};
use std::sync::{Arc, Mutex};
use std::task::{Wake, Waker};

struct Bell {
    rings: Mutex<usize>,
}

impl Wake for Bell {
    fn wake(self: Arc<Self>) {
        *self.rings.lock().unwrap() += 1;
    }
}

fn bell() -> (Arc<Bell>, Waker) {
    let bell = Arc::new(Bell { rings: Mutex::new(0) });
    (bell.clone(), Waker::from(bell))
}

fn rings(bell: &Arc<Bell>) -> usize {
    *bell.rings.lock().unwrap()
}

#[test]
fn chan_i32() {
    let mut chan = Channel::<i32>::new(usize::MAX);

    assert!(chan.send(0).is_ok());
    assert_eq!(chan.poll_next(bell().1), Poll::Ready(Some(0)));

    assert!(chan.send(1).is_ok());
    assert!(chan.send(-1).is_ok());
    assert_eq!(chan.poll_next(bell().1), Poll::Ready(Some(1)));
    assert_eq!(chan.poll_next(bell().1), Poll::Ready(Some(-1)));
}

#[test]
fn chan_drop_tx() {
    let mut chan = Channel::<i32>::new(usize::MAX);
    assert!(chan.send(1).is_ok());
    chan.drop_tx();
    assert_eq!(chan.poll_next(bell().1), Poll::Ready(Some(1)));
    assert_eq!(chan.poll_next(bell().1), Poll::Ready(None));
}

#[test]
fn chan_send_to_closed_tx() {
    let mut chan = Channel::<i32>::new(usize::MAX);
    assert!(!chan.closed());
    chan.drop_rx();
    assert!(chan.closed());
    assert!(matches!(chan.send(1), Err(ChannelSendError::Closed(1))));
}

#[test]
fn chan_capacity() {
    let mut chan = Channel::<i32>::new(3);
    assert!(chan.send(1).is_ok());
    assert!(chan.send(2).is_ok());
    assert!(chan.send(3).is_ok());
    assert!(matches!(chan.send(4), Err(ChannelSendError::Full(4))));
    assert_eq!(chan.poll_next(bell().1), Poll::Ready(Some(1)));
    assert!(chan.send(5).is_ok());
    assert!(matches!(chan.send(6), Err(ChannelSendError::Full(6))));
    assert_eq!(chan.poll_next(bell().1), Poll::Ready(Some(2)));
    assert_eq!(chan.poll_next(bell().1), Poll::Ready(Some(3)));
    assert_eq!(chan.poll_next(bell().1), Poll::Ready(Some(5)));
    assert_eq!(chan.poll_next(bell().1), Poll::Pending);
}

#[test]
fn chan_fill_then_full_for_many_capacities() {
    for capacity in 1..=16usize {
        let mut chan = Channel::<usize>::new(capacity);
        for item in 0..capacity {
            assert!(chan.send(item).is_ok());
        }
        assert!(matches!(chan.send(capacity), Err(ChannelSendError::Full(n)) if n == capacity));
        for item in 0..capacity {
            assert_eq!(chan.poll_next(bell().1), Poll::Ready(Some(item)));
        }
        assert_eq!(chan.poll_next(bell().1), Poll::Pending);
    }
}

#[test]
fn chan_drains_then_ends_for_good() {
    let mut chan = Channel::<u8>::new(4);
    chan.clone_tx();
    assert_eq!(chan.sender_count(), 2);
    assert!(chan.send(7).is_ok());
    assert!(chan.send(8).is_ok());
    chan.drop_tx();
    chan.drop_tx();
    assert_eq!(chan.sender_count(), 0);
    assert_eq!(chan.poll_next(bell().1), Poll::Ready(Some(7)));
    assert_eq!(chan.poll_next(bell().1), Poll::Ready(Some(8)));
    for _ in 0..5 {
        assert_eq!(chan.poll_next(bell().1), Poll::Ready(None));
    }
}

#[test]
fn chan_send_wakes_the_receiver() {
    let mut chan = Channel::<u8>::new(4);
    let (b, w) = bell();
    assert_eq!(chan.poll_next(w), Poll::Pending);
    assert_eq!(rings(&b), 0);
    assert!(chan.send(1).is_ok());
    assert_eq!(rings(&b), 1);
    assert!(chan.send(2).is_ok());
    assert_eq!(rings(&b), 1);
}

#[test]
fn chan_only_the_last_sender_wakes_on_drop() {
    let mut chan = Channel::<u8>::new(4);
    chan.clone_tx();
    chan.clone_tx();
    let (b, w) = bell();
    assert_eq!(chan.poll_next(w), Poll::Pending);
    chan.drop_tx();
    assert_eq!(rings(&b), 0);
    chan.drop_tx();
    assert_eq!(rings(&b), 0);
    chan.drop_tx();
    assert_eq!(rings(&b), 1);
    assert_eq!(chan.poll_next(bell().1), Poll::Ready(None));
}

#[test]
fn chan_ready_pull_without_senders_parks_nothing() {
    let mut chan = Channel::<u8>::new(4);
    chan.drop_tx();
    let (b, w) = bell();
    assert_eq!(chan.poll_next(w), Poll::Ready(None));
    chan.drop_rx();
    assert_eq!(rings(&b), 0);
}

#[test]
fn chan_last_registrant_wins() {
    let mut chan = Channel::<u8>::new(4);
    let (first, w1) = bell();
    let (second, w2) = bell();
    assert_eq!(chan.poll_next(w1), Poll::Pending);
    assert_eq!(chan.poll_next(w2), Poll::Pending);
    assert!(chan.send(1).is_ok());
    assert_eq!(rings(&first), 0);
    assert_eq!(rings(&second), 1);
}

#[test]
fn chan_errors_hand_the_value_back() {
    let mut chan = Channel::<String>::new(1);
    assert!(chan.send(String::from("kept")).is_ok());
    match chan.send(String::from("refused")) {
        Err(ChannelSendError::Full(value)) => assert_eq!(value, "refused"),
        other => panic!("expected Full, got {:?}", other),
    }
    chan.drop_rx();
    match chan.send(String::from("late")) {
        Err(ChannelSendError::Closed(value)) => assert_eq!(value, "late"),
        other => panic!("expected Closed, got {:?}", other),
    }
}

#[test]
fn chan_closed_wins_over_full() {
    let mut chan = Channel::<u8>::new(1);
    assert!(chan.send(1).is_ok());
    assert!(matches!(chan.send(2), Err(ChannelSendError::Full(2))));
    chan.drop_rx();
    assert!(matches!(chan.send(3), Err(ChannelSendError::Closed(3))));
}

#[test]
fn chan_pull_after_receiver_is_gone() {
    let mut chan = Channel::<u8>::new(2);
    assert!(chan.send(1).is_ok());
    chan.drop_rx();
    assert_eq!(chan.poll_next(bell().1), Poll::Ready(None));
    assert_eq!(chan.sender_count(), 1);
}

#[test]
fn chan_starts_with_one_sender() {
    let chan = Channel::<u8>::new(2);
    assert_eq!(chan.sender_count(), 1);
    assert!(!chan.closed());
}

#[test]
fn chan_error_messages() {
    assert_eq!(ChannelSendError::Full(1).message(), "no available capacity");
    assert_eq!(ChannelSendError::Closed(1).message(), "channel closed");
    assert_eq!(ChannelSendError::Full('x').into_inner(), 'x');
    assert_eq!(ChannelSendError::Closed('y').into_inner(), 'y');
}
