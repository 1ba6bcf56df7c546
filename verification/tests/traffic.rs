use ed25519_dalek::SigningKey;
use encrypted_conn::handler::{HandlerEvent, HandlerStep, SessionHandler};
use encrypted_conn::read::{copy_message, ReadEvent, ReadStep, PACKET_BUFFER_LEN};
use encrypted_conn::write::{WriteEvent, WriteStep, WriteTo};
use encrypted_conn::{Addr, EncryptedPacketConn, Error, OutAction, ReadPath};

const ALICE: [u8; 32] = [0xa1; 32];
const BOB: [u8; 32] = [0xb0; 32];

fn conn(path: ReadPath) -> EncryptedPacketConn {
    EncryptedPacketConn::new(SigningKey::from_bytes(&[3u8; 32]), 10, path)
}

fn send(dest: [u8; 32], byte: u8) -> OutAction {
    OutAction::SendToInner { dest, data: vec![byte; 2] }
}

fn deliver(source: [u8; 32], data: &[u8]) -> OutAction {
    OutAction::Deliver { source, data: data.to_vec() }
}

fn sent(byte: u8, dest: [u8; 32]) -> HandlerStep {
    HandlerStep::Send { dest: Addr(dest), data: vec![byte; 2] }
}

/// The background reader takes in one packet for which the session layer asks these.
fn handle(conn: &mut EncryptedPacketConn, actions: Vec<OutAction>) -> Vec<HandlerStep> {
    let mut handler = SessionHandler::new();
    let mut steps = Vec::new();
    let mut step = handler.step(conn, HandlerEvent::<String>::Handled(actions));
    loop {
        let event = match &step {
            HandlerStep::Send { .. } => HandlerEvent::<String>::Sent(Ok(2)),
            HandlerStep::Buffered { .. } => HandlerEvent::Announced,
            _ => {
                steps.push(step);
                return steps;
            }
        };
        steps.push(step);
        step = handler.step(conn, event);
    }
}

#[test]
fn copy_cuts_off_and_leaves_the_rest() {
    let mut buf = [9u8; 5];
    assert_eq!(copy_message(&mut buf, &[1, 2, 3]), 3);
    assert_eq!(buf, [1, 2, 3, 9, 9]);
    assert_eq!(copy_message(&mut buf, &[4, 5, 6, 7, 8, 0]), 5);
    assert_eq!(buf, [4, 5, 6, 7, 8]);
    assert_eq!(copy_message(&mut buf, &[]), 0);
    assert_eq!(copy_message(&mut [], &[1]), 0);
    assert_eq!(buf, [4, 5, 6, 7, 8]);
    assert_eq!(PACKET_BUFFER_LEN, 128 * 1024);
}

#[test]
fn handler_reads_and_hands_over_packets() {
    let mut c = conn(ReadPath::BufferOnly);
    let mut handler = SessionHandler::new();
    assert_eq!(handler.step(&mut c, HandlerEvent::<String>::Started), HandlerStep::ReadInner);
    assert_eq!(
        handler.step(&mut c, HandlerEvent::<String>::Received { from: Addr(ALICE), len: 77 }),
        HandlerStep::HandleData { from: ALICE, len: 77 }
    );
    assert_eq!(handler.step(&mut c, HandlerEvent::<String>::Handled(vec![])), HandlerStep::ReadInner);
    assert_eq!(handler.step(&mut c, HandlerEvent::Failed("gone".to_string())), HandlerStep::Stop);
    assert_eq!(handler.step(&mut c, HandlerEvent::<String>::Cancelled), HandlerStep::Stop);
}

#[test]
fn handler_sees_to_all_actions() {
    let mut c = conn(ReadPath::BufferOnly);
    let steps = handle(
        &mut c,
        vec![send(ALICE, 1), deliver(BOB, b"one"), send(BOB, 2), deliver(ALICE, b"two")],
    );
    assert_eq!(
        steps,
        vec![
            sent(1, ALICE),
            HandlerStep::Buffered { wake: true },
            sent(2, BOB),
            HandlerStep::Buffered { wake: false },
            HandlerStep::ReadInner,
        ]
    );
    let mut buf = [0u8; 8];
    let (_, step) = c.read_from::<String>(&mut buf);
    assert_eq!(step, ReadStep::Done(Ok((3, Addr(BOB)))));
    assert_eq!(&buf[..3], b"one");
    let (_, step) = c.read_from::<String>(&mut buf);
    assert_eq!(step, ReadStep::Done(Ok((3, Addr(ALICE)))));
    assert_eq!(&buf[..3], b"two");
}

#[test]
fn handler_ignores_failed_sends() {
    let mut c = conn(ReadPath::BufferOnly);
    let mut handler = SessionHandler::new();
    let actions = vec![send(ALICE, 1), send(BOB, 2)];
    assert_eq!(handler.step(&mut c, HandlerEvent::<String>::Handled(actions)), sent(1, ALICE));
    assert_eq!(handler.step(&mut c, HandlerEvent::Sent(Err("lost".to_string()))), sent(2, BOB));
    assert_eq!(
        handler.step(&mut c, HandlerEvent::Sent(Err("lost".to_string()))),
        HandlerStep::ReadInner
    );
}

#[test]
fn handler_fills_the_buffer_up() {
    let mut c = conn(ReadPath::Inline);
    let actions: Vec<OutAction> = (0..70u8).map(|n| deliver(BOB, &[n])).collect();
    let steps = handle(&mut c, actions);
    assert_eq!(steps.len(), 71);
    assert_eq!(steps[0], HandlerStep::Buffered { wake: true });
    assert!(steps[1..70].iter().all(|s| *s == HandlerStep::Buffered { wake: false }));
    let mut buf = [0u8; 1];
    for n in 0..64u8 {
        let (_, step) = c.read_from::<String>(&mut buf);
        assert_eq!(step, ReadStep::Done(Ok((1, Addr(BOB)))));
        assert_eq!(buf, [n]);
    }
    let (_, step) = c.read_from::<String>(&mut buf);
    assert_eq!(step, ReadStep::ReadInner);
}

#[test]
fn read_takes_the_buffered_message_first() {
    let mut c = conn(ReadPath::Inline);
    handle(&mut c, vec![deliver(BOB, b"hello")]);
    let mut buf = [7u8; 3];
    let (_, step) = c.read_from::<String>(&mut buf);
    assert_eq!(step, ReadStep::Done(Ok((3, Addr(BOB)))));
    assert_eq!(&buf, b"hel");
    let (_, step) = c.read_from::<String>(&mut buf);
    assert_eq!(step, ReadStep::ReadInner);
}

#[test]
fn buffer_only_read_waits_for_the_background_reader() {
    let mut c = conn(ReadPath::BufferOnly);
    let mut buf = [7u8; 4];
    let (mut read, step) = c.read_from::<String>(&mut buf);
    assert_eq!(step, ReadStep::Wait);
    assert_eq!(read.step(&mut c, ReadEvent::<String>::Notified, &mut buf), ReadStep::Wait);
    handle(&mut c, vec![deliver(BOB, b"hi")]);
    assert_eq!(
        read.step(&mut c, ReadEvent::<String>::Notified, &mut buf),
        ReadStep::Done(Ok((2, Addr(BOB))))
    );
    assert_eq!(&buf, b"hi\x07\x07");
}

#[test]
fn cancelled_read_is_closed() {
    for path in [ReadPath::Inline, ReadPath::BufferOnly] {
        let mut c = conn(path);
        let mut buf = [7u8; 4];
        let (mut read, _) = c.read_from::<String>(&mut buf);
        assert_eq!(
            read.step(&mut c, ReadEvent::<String>::Cancelled, &mut buf),
            ReadStep::Done(Err(Error::Closed))
        );
        assert_eq!(buf, [7u8; 4]);
    }
}

#[test]
fn inline_read_returns_inner_error() {
    let mut c = conn(ReadPath::Inline);
    let mut buf = [0u8; 4];
    let (mut read, step) = c.read_from::<String>(&mut buf);
    assert_eq!(step, ReadStep::ReadInner);
    assert_eq!(
        read.step(&mut c, ReadEvent::Failed("gone".to_string()), &mut buf),
        ReadStep::Done(Err(Error::Inner("gone".to_string())))
    );
}

#[test]
fn inline_read_ends_with_first_message() {
    let mut c = conn(ReadPath::Inline);
    let mut buf = [0u8; 4];
    let (mut read, step) = c.read_from::<String>(&mut buf);
    assert_eq!(step, ReadStep::ReadInner);
    let event = ReadEvent::<String>::Received { from: Addr(ALICE), len: 99 };
    assert_eq!(
        read.step(&mut c, event, &mut buf),
        ReadStep::HandleData { from: ALICE, len: 99 }
    );
    // A packet of the session protocol: answered, and the read goes on.
    let event = ReadEvent::<String>::Handled(vec![send(ALICE, 1)]);
    assert_eq!(
        read.step(&mut c, event, &mut buf),
        ReadStep::Send { dest: Addr(ALICE), data: vec![1, 1] }
    );
    let event = ReadEvent::Sent(Err("lost".to_string()));
    assert_eq!(read.step(&mut c, event, &mut buf), ReadStep::ReadInner);
    // A packet with traffic.
    let actions = vec![
        send(BOB, 2),
        deliver(BOB, b"first message"),
        send(BOB, 3),
        deliver(BOB, b"second"),
    ];
    assert_eq!(
        read.step(&mut c, ReadEvent::<String>::Handled(actions), &mut buf),
        ReadStep::Send { dest: Addr(BOB), data: vec![2, 2] }
    );
    assert_eq!(
        read.step(&mut c, ReadEvent::<String>::Sent(Ok(2)), &mut buf),
        ReadStep::Done(Ok((4, Addr(BOB))))
    );
    assert_eq!(&buf, b"firs");
    // Nothing of what came behind it was buffered.
    let (_, step) = c.read_from::<String>(&mut buf);
    assert_eq!(step, ReadStep::ReadInner);
}

/// Drive a write whose packets are answered with `answers`.
fn drive(
    write: &mut WriteTo,
    actions: Vec<OutAction>,
    answers: Vec<Result<usize, String>>,
) -> (Vec<u8>, Result<usize, Error<String>>) {
    let mut answers = answers.into_iter();
    let mut packets = Vec::new();
    let mut step = write.step(WriteEvent::Encrypted(actions));
    loop {
        step = match step {
            WriteStep::Send { data, .. } => {
                packets.push(data[0]);
                write.step(WriteEvent::Sent(answers.next().unwrap()))
            }
            WriteStep::Done(result) => return (packets, result),
            WriteStep::Encrypt { .. } => panic!("encrypted twice"),
        };
    }
}

#[test]
fn write_sends_all_packets() {
    let c = conn(ReadPath::BufferOnly);
    let (mut write, step) = c.write_to::<String>(vec![5, 6, 7], &Addr(BOB), 1500);
    assert_eq!(step, WriteStep::Encrypt { key: BOB, data: vec![5, 6, 7] });
    let actions = vec![deliver(ALICE, b"?"), send(BOB, 1), deliver(ALICE, b"!"), send(BOB, 2)];
    assert_eq!(drive(&mut write, actions, vec![Ok(2), Ok(2)]), (vec![1, 2], Ok(3)));
}

#[test]
fn write_without_packets_succeeds() {
    let c = conn(ReadPath::BufferOnly);
    let (mut write, _) = c.write_to::<String>(vec![5; 9], &Addr(BOB), 1500);
    assert_eq!(drive(&mut write, vec![], vec![]), (vec![], Ok(9)));
}

#[test]
fn write_stops_at_first_failure() {
    let c = conn(ReadPath::BufferOnly);
    let (mut write, _) = c.write_to::<String>(vec![5, 6, 7], &Addr(BOB), 1500);
    let actions = vec![send(BOB, 1), send(BOB, 2), send(BOB, 3)];
    let answers = vec![Ok(2), Err("full".to_string())];
    assert_eq!(
        drive(&mut write, actions, answers),
        (vec![1, 2], Err(Error::Inner("full".to_string())))
    );
}

#[test]
fn write_refuses_oversized_messages() {
    let c = conn(ReadPath::BufferOnly);
    let (_, step) = c.write_to::<String>(vec![0; 90], &Addr(BOB), 100);
    assert!(matches!(step, WriteStep::Encrypt { .. }));
    let (_, step) = c.write_to::<String>(vec![0; 91], &Addr(BOB), 100);
    assert_eq!(step, WriteStep::Done(Err(Error::OversizedMessage)));
    // The overhead alone exceeds the inner MTU: only the empty message passes.
    let (_, step) = c.write_to::<String>(vec![], &Addr(BOB), 5);
    assert_eq!(step, WriteStep::Encrypt { key: BOB, data: vec![] });
    let (_, step) = c.write_to::<String>(vec![0], &Addr(BOB), 5);
    assert_eq!(step, WriteStep::Done(Err(Error::OversizedMessage)));
}

#[test]
fn closed_conn_stays_closed() {
    let mut c = conn(ReadPath::BufferOnly);
    let mut buf = [7u8; 4];
    let (mut read, step) = c.read_from::<String>(&mut buf);
    assert_eq!(step, ReadStep::Wait);
    c.close::<String>();
    // The background reader is still busy with a packet.
    handle(&mut c, vec![deliver(BOB, b"late")]);
    assert!(c.is_closed());
    let (_, step) = c.read_from::<String>(&mut buf);
    assert_eq!(step, ReadStep::Done(Err(Error::Closed)));
    assert_eq!(buf, [7u8; 4]);
    // The read that was waiting still gets the message if it is notified first.
    let step = read.step(&mut c, ReadEvent::<String>::Notified, &mut buf);
    assert_eq!(step, ReadStep::Done(Ok((4, Addr(BOB)))));
    assert!(c.is_closed());
}
