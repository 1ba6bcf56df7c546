use encrypted_conn::buffer::{PopStep, QueuedMessage, TrafficBuffer, WaitEvent};
use encrypted_conn::buffer::{BUFFER_CAPACITY, BUFFER_ONLY_CAPACITY};
use encrypted_conn::ReadPath;

fn msg(n: u16) -> QueuedMessage {
    QueuedMessage { source: [n as u8; 32], data: n.to_be_bytes().to_vec() }
}

#[test]
fn messages_come_out_in_order() {
    let mut buffer = TrafficBuffer::new(ReadPath::Inline);
    assert_eq!(buffer.try_pop(), None);
    buffer.push(msg(1));
    buffer.push(msg(2));
    assert_eq!(buffer.try_pop(), Some(msg(1)));
    buffer.push(msg(3));
    assert_eq!(buffer.try_pop(), Some(msg(2)));
    assert_eq!(buffer.try_pop(), Some(msg(3)));
    assert_eq!(buffer.try_pop(), None);
}

#[test]
fn push_wakes_only_on_empty() {
    let mut buffer = TrafficBuffer::new(ReadPath::Inline);
    assert!(buffer.push(msg(1)));
    assert!(!buffer.push(msg(2)));
    buffer.try_pop();
    assert!(!buffer.push(msg(3)));
    buffer.try_pop();
    buffer.try_pop();
    assert!(buffer.push(msg(4)));
}

fn fill_and_drain(path: ReadPath, capacity: usize) {
    let mut buffer = TrafficBuffer::new(path);
    for n in 0..capacity {
        assert_eq!(buffer.push(msg(n as u16)), n == 0);
    }
    // Full: the newest messages are dropped, and nobody is woken.
    assert!(!buffer.push(msg(9000)));
    assert!(!buffer.push(msg(9001)));
    assert_eq!(buffer.try_pop(), Some(msg(0)));
    assert!(!buffer.push(msg(9002)));
    for n in 1..capacity {
        assert_eq!(buffer.try_pop(), Some(msg(n as u16)));
    }
    assert_eq!(buffer.try_pop(), Some(msg(9002)));
    assert_eq!(buffer.try_pop(), None);
}

#[test]
fn full_buffer_drops_newest() {
    assert_eq!(BUFFER_CAPACITY, 64);
    fill_and_drain(ReadPath::Inline, 64);
}

#[test]
fn buffer_only_holds_more() {
    assert_eq!(BUFFER_ONLY_CAPACITY, 512);
    fill_and_drain(ReadPath::BufferOnly, 512);
}

#[test]
fn pop_or_wait_takes_waits_and_gives_up() {
    let mut buffer = TrafficBuffer::new(ReadPath::BufferOnly);
    assert_eq!(buffer.pop_or_wait(WaitEvent::Start), PopStep::Wait);
    // The reader that waits is woken by the next push.
    assert!(buffer.push(msg(1)));
    assert_eq!(buffer.pop_or_wait(WaitEvent::Notified), PopStep::Message(msg(1)));
    assert_eq!(buffer.pop_or_wait(WaitEvent::Notified), PopStep::Wait);
    buffer.push(msg(2));
    assert_eq!(buffer.pop_or_wait(WaitEvent::Cancelled), PopStep::Cancelled);
    assert_eq!(buffer.pop_or_wait(WaitEvent::Start), PopStep::Message(msg(2)));
}
