use prodcon::channel::Channel;
use prodcon::channel::Item;
use prodcon::channel::RecvOutcome;

fn item(producer: u32, value: u32) -> Item {
    Item { producer, value }
}

#[test]
fn fifo_order_is_preserved() {
    let mut ch = Channel::new(3);
    assert!(ch.try_send(item(0, 10)));
    assert!(ch.try_send(item(0, 11)));
    assert!(ch.try_send(item(1, 7)));
    assert_eq!(ch.try_recv(), RecvOutcome::Received(item(0, 10)));
    assert_eq!(ch.try_recv(), RecvOutcome::Received(item(0, 11)));
    assert_eq!(ch.try_recv(), RecvOutcome::Received(item(1, 7)));
}

#[test]
fn send_on_full_buffer_is_refused_and_capacity_holds() {
    let mut ch = Channel::new(2);
    assert!(ch.try_send(item(0, 0)));
    assert!(ch.try_send(item(0, 1)));
    assert_eq!(ch.len(), 2);
    // the buffer is at capacity: a blocking sender would wait here
    assert!(!ch.try_send(item(0, 2)));
    assert_eq!(ch.len(), 2);
    // making room lets the send through
    assert_eq!(ch.try_recv(), RecvOutcome::Received(item(0, 0)));
    assert!(ch.try_send(item(0, 2)));
    assert_eq!(ch.len(), 2);
}

#[test]
fn empty_open_channel_reports_empty_not_end_of_stream() {
    let mut ch = Channel::new(4);
    assert!(!ch.is_closed());
    assert_eq!(ch.try_recv(), RecvOutcome::Empty);
    assert_eq!(ch.try_recv(), RecvOutcome::Empty);
}

#[test]
fn channel_closes_exactly_when_the_last_sender_is_released() {
    let mut ch = Channel::new(4);
    ch.clone_sender();
    ch.clone_sender();
    assert!(!ch.is_closed());
    ch.drop_sender();
    assert!(!ch.is_closed());
    ch.drop_sender();
    assert!(!ch.is_closed());
    ch.drop_sender();
    assert!(ch.is_closed());
}

#[test]
fn end_of_stream_is_idempotent_after_drain() {
    let mut ch = Channel::new(4);
    assert!(ch.try_send(item(0, 0)));
    assert!(ch.try_send(item(0, 1)));
    ch.drop_sender();
    assert!(ch.is_closed());
    // buffered items are still handed out after closure, in order
    assert_eq!(ch.try_recv(), RecvOutcome::Received(item(0, 0)));
    assert_eq!(ch.try_recv(), RecvOutcome::Received(item(0, 1)));
    // closed and drained: every further receive observes end-of-stream
    assert_eq!(ch.try_recv(), RecvOutcome::EndOfStream);
    assert_eq!(ch.try_recv(), RecvOutcome::EndOfStream);
    assert_eq!(ch.try_recv(), RecvOutcome::EndOfStream);
    assert_eq!(ch.len(), 0);
}
