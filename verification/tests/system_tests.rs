use prodcon::barrier::Barrier;
use prodcon::channel::Item;
use prodcon::system::System;
use prodcon::system::process_item;
use prodcon::system::run;

/// The values of the consumed items that originate from one producer,
/// in consumption order.
fn values_from(consumed: &Vec<Item>, producer: u32) -> Vec<u32> {
    let mut vs = Vec::new();
    for it in consumed {
        if it.producer == producer {
            vs.push(it.value);
        }
    }
    vs
}

#[test]
fn single_producer_single_consumer_tiny_buffer() {
    // P=1, C=1, B=1, E=3: the consumer receives exactly 0, 1, 2 in order
    let sys = run(1, 1, 1, 3);
    assert!(sys.is_done());
    assert!(sys.is_closed());
    assert_eq!(sys.buffered(), 0);
    let consumed = sys.consumed();
    assert_eq!(consumed.len(), 3);
    assert_eq!(consumed[0], Item { producer: 0, value: 0 });
    assert_eq!(consumed[1], Item { producer: 0, value: 1 });
    assert_eq!(consumed[2], Item { producer: 0, value: 2 });
}

#[test]
fn three_producers_two_consumers() {
    // P=3, C=2, B=10, E=5: exactly 15 items in all, and each producer's
    // own 0..4 run is preserved inside the interleaved stream
    let sys = run(3, 2, 10, 5);
    assert!(sys.is_done());
    let consumed = sys.consumed();
    assert_eq!(consumed.len(), 15);
    for producer in 0..3 {
        assert_eq!(values_from(consumed, producer), vec![0, 1, 2, 3, 4]);
    }
}

#[test]
fn total_consumed_is_producers_times_elements() {
    let sys = run(4, 3, 2, 6);
    assert!(sys.is_done());
    let consumed = sys.consumed();
    assert_eq!(consumed.len(), 4 * 6);
    for producer in 0..4 {
        assert_eq!(values_from(consumed, producer).len(), 6);
    }
}

#[test]
fn no_producers_closes_immediately() {
    // P=0: the orchestrator's own handle was the last sender, so the
    // channel is closed from the start and consumers finish at once
    let mut sys = System::new(0, 3, 5, 100);
    assert!(sys.is_closed());
    assert_eq!(sys.buffered(), 0);
    assert!(!sys.is_done());
    sys.step_consumer(0);
    sys.step_consumer(1);
    sys.step_consumer(2);
    assert!(sys.is_done());
    assert_eq!(sys.consumed().len(), 0);
}

#[test]
fn no_producers_through_the_scheduler() {
    let sys = run(0, 3, 5, 100);
    assert!(sys.is_done());
    assert_eq!(sys.consumed().len(), 0);
}

#[test]
fn zero_elements_per_producer() {
    let sys = run(2, 2, 1, 0);
    assert!(sys.is_done());
    assert_eq!(sys.consumed().len(), 0);
}

#[test]
fn buffered_count_never_exceeds_capacity() {
    // drive the model by hand and watch the in-flight count at every instant
    let mut sys = System::new(2, 1, 1, 4);
    for _round in 0..40 {
        sys.step_producer(0);
        assert!(sys.buffered() <= 1);
        sys.step_producer(1);
        assert!(sys.buffered() <= 1);
        sys.step_consumer(0);
        assert!(sys.buffered() <= 1);
    }
    assert!(sys.is_done());
    assert_eq!(sys.consumed().len(), 8);
}

#[test]
fn blocked_producer_changes_nothing() {
    let mut sys = System::new(1, 1, 1, 3);
    sys.step_producer(0);
    assert_eq!(sys.buffered(), 1);
    // the buffer is full: the producer blocks, nothing moves
    sys.step_producer(0);
    assert_eq!(sys.buffered(), 1);
    assert_eq!(sys.consumed().len(), 0);
}

#[test]
fn done_state_is_terminal() {
    let mut sys = run(1, 1, 1, 2);
    assert!(sys.is_done());
    let before = sys.consumed().len();
    sys.step_producer(0);
    sys.step_consumer(0);
    assert!(sys.is_done());
    assert_eq!(sys.consumed().len(), before);
    assert_eq!(sys.buffered(), 0);
}

#[test]
fn barrier_counts_down_to_completion() {
    let mut b = Barrier::new(2);
    assert!(!b.is_complete());
    b.done();
    assert!(!b.is_complete());
    b.done();
    assert!(b.is_complete());
    let z = Barrier::new(0);
    assert!(z.is_complete());
}

#[test]
fn consumer_transform_doubles_with_wraparound() {
    assert_eq!(process_item(0), 0);
    assert_eq!(process_item(5), 10);
    assert_eq!(process_item(2_147_483_647), 4_294_967_294);
    assert_eq!(process_item(2_147_483_648), 0);
    assert_eq!(process_item(u32::MAX), 4_294_967_294);
}
