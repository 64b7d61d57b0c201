use floof::task::executor::{ReadyQueue, TaskWaker};
use floof::task::keyboard::{decode_scancode, make_keyboard, PollByte, ScancodeStream};
use floof::task::TaskId;
use pc_keyboard::DecodedKey;

/// Producing bytes up to capacity succeeds and consumption preserves FIFO
/// order; one byte beyond capacity is dropped without blocking, and every
/// previously buffered byte remains observable in order.
#[test]
fn bridge_is_fifo_and_drops_on_overflow() {
    let mut stream = ScancodeStream::new();
    let mut ready = ReadyQueue::new(8);
    for i in 0..100u8 {
        assert!(stream.add_scancode(i, &mut ready), "byte {} rejected", i);
    }
    // the queue is full: the next byte is dropped, nothing blocks
    assert!(!stream.add_scancode(200, &mut ready));
    for i in 0..100u8 {
        assert_eq!(stream.try_pop(), Some(i));
    }
    assert_eq!(stream.try_pop(), None);
}

/// The lost-wakeup race: the producer runs strictly between the consumer's
/// empty fast-path pop and its waker registration. The second pop, made
/// after registration, still observes the byte instead of stalling.
#[test]
fn produce_between_fast_pop_and_registration_is_observed() {
    let mut stream = ScancodeStream::new();
    let mut ready = ReadyQueue::new(8);
    // consumer fast path: nothing buffered yet
    assert_eq!(stream.try_pop(), None);
    // the interrupt fires exactly here, before the consumer parks
    assert!(stream.add_scancode(0x42, &mut ready));
    // consumer parks, then re-checks: the byte is seen, no stall
    stream.register_waker(TaskWaker::new(TaskId(3)));
    assert_eq!(stream.poll_after_register(), PollByte::Ready(0x42));
}

/// A producer that finds a waker registered takes it and enqueues the
/// waiting task's id.
#[test]
fn produce_wakes_the_registered_consumer() {
    let mut stream = ScancodeStream::new();
    let mut ready = ReadyQueue::new(8);
    assert_eq!(stream.poll_next(TaskWaker::new(TaskId(5))), PollByte::Pending);
    assert!(stream.add_scancode(0x1E, &mut ready));
    assert_eq!(ready.pop(), Some(TaskId(5)));
    assert_eq!(stream.poll_next(TaskWaker::new(TaskId(5))), PollByte::Ready(0x1E));
}

/// A poll that finds a buffered byte returns it on the fast path without
/// registering a waker.
#[test]
fn poll_fast_path_returns_buffered_byte() {
    let mut stream = ScancodeStream::new();
    let mut ready = ReadyQueue::new(8);
    assert!(stream.add_scancode(7, &mut ready));
    assert!(stream.add_scancode(8, &mut ready));
    assert_eq!(stream.poll_next(TaskWaker::new(TaskId(1))), PollByte::Ready(7));
    assert_eq!(stream.poll_next(TaskWaker::new(TaskId(1))), PollByte::Ready(8));
    // nothing was ever woken: no waker was registered on the fast path
    assert_eq!(ready.pop(), None);
}

/// The scancode decoder turns a make code into the key it names.
#[test]
fn decode_scancode_yields_the_pressed_key() {
    let mut kb = make_keyboard();
    // scancode set 1: 0x1E is the make code of the A key
    let key = decode_scancode(&mut kb, 0x1E);
    assert_eq!(key, Some(DecodedKey::Unicode('a')));
    // the corresponding break code completes no printable key
    let release = decode_scancode(&mut kb, 0x9E);
    assert_eq!(release, None);
}
