use jormungandr::blockcfg::{BlockDate, Header, HeaderHash};
use jormungandr::comm::{CommHandle, ErrorKind, StreamPoll};

fn header(n: u64) -> Header {
    Header { hash: HeaderHash(n), date: BlockDate { epoch: 0, slot_id: n as u32 } }
}

#[test]
fn fifo_per_topic() {
    let mut h: CommHandle<Header> = CommHandle::new();
    let sub = h.subscribe();
    assert!(h.try_send(header(1)).is_ok());
    assert!(h.try_send(header(2)).is_ok());
    assert!(h.try_send(header(3)).is_ok());
    assert_eq!(h.poll(&sub), StreamPoll::Ready(header(1)));
    assert_eq!(h.poll(&sub), StreamPoll::Ready(header(2)));
    assert_eq!(h.poll(&sub), StreamPoll::Ready(header(3)));
    assert_eq!(h.poll(&sub), StreamPoll::Pending);
}

#[test]
fn bounded_buffering_overflow_on_ninth() {
    let mut h: CommHandle<Header> = CommHandle::new();
    let _sub = h.subscribe();
    for n in 0..8u64 {
        assert!(h.try_send(header(n)).is_ok());
    }
    let e = h.try_send(header(8)).unwrap_err();
    assert_eq!(e.kind(), ErrorKind::StreamOverflow);
    assert_eq!(e.into_item(), header(8));
}

#[test]
fn send_without_subscriber_surrenders_item() {
    let mut h: CommHandle<Header> = CommHandle::new();
    let e = h.try_send(header(7)).unwrap_err();
    assert_eq!(e.kind(), ErrorKind::NotSubscribed);
    assert_eq!(e.into_item(), header(7));
}

#[test]
fn closed_consumer_detected_at_producer() {
    let mut h: CommHandle<Header> = CommHandle::new();
    let sub = h.subscribe();
    assert!(h.try_send(header(1)).is_ok());
    h.close(&sub);
    let e = h.try_send(header(2)).unwrap_err();
    assert_eq!(e.kind(), ErrorKind::SubscriptionClosed);
    assert_eq!(e.into_item(), header(2));
}

#[test]
fn resubscribe_supersedes_previous_stream() {
    let mut h: CommHandle<Header> = CommHandle::new();
    let first = h.subscribe();
    assert!(h.try_send(header(1)).is_ok());
    let second = h.subscribe();
    // The first stream ends on its next poll, within one poll.
    assert_eq!(h.poll(&first), StreamPoll::Ended);
    // The new stream starts empty and sees only later items.
    assert_eq!(h.poll(&second), StreamPoll::Pending);
    assert!(h.try_send(header(2)).is_ok());
    assert_eq!(h.poll(&second), StreamPoll::Ready(header(2)));
}

#[test]
fn default_handle_is_unsubscribed() {
    let mut h: CommHandle<u64> = CommHandle::default();
    let e = h.try_send(5).unwrap_err();
    assert_eq!(e.kind(), ErrorKind::NotSubscribed);
}
