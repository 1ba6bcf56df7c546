//! One `write_to` call.
//!
//! The caller performs the [`WriteStep`] it is given and reports what came of it as a
//! [`WriteEvent`], until the step is [`WriteStep::Done`].
use crate::actions::{law_packets_are_the_sends, packets, queue_of, OutAction};
use crate::conn::{mtu_within, ConnState, EncryptedPacketConn};
use crate::types::{Addr, Error, PublicKey};
use std::collections::VecDeque;
use vstd::prelude::*;

verus! {

/// What came of a step of a write.
#[derive(Debug, PartialEq, Eq)]
pub enum WriteEvent<E> {
    /// The session layer took in the message and asks for these actions.
    Encrypted(Vec<OutAction>),
    /// The inner connection was given a packet to send.
    Sent(Result<usize, E>),
}

/// What a write needs done next.
#[derive(Debug, PartialEq, Eq)]
pub enum WriteStep<E> {
    /// Let the session layer take in the message `data` to the node `key`.
    Encrypt { key: PublicKey, data: Vec<u8> },
    /// Send `data` over the inner connection.
    Send { dest: Addr, data: Vec<u8> },
    /// Return this to the caller: the number of bytes written.
    Done(Result<usize, Error<E>>),
}

/// The length of the message of a write in progress, and the actions of the session
/// layer that it has still to go through.
pub struct WriteTo {
    len: usize,
    pending: VecDeque<OutAction>,
}

/// A write in progress, as the contracts speak of it.
#[verifier::ext_equal]
pub struct WriteState {
    /// The length of the message.
    pub len: usize,
    /// The packets still to send, each with its destination.
    pub packets: Seq<(Addr, Vec<u8>)>,
}

impl View for WriteTo {
    type V = WriteState;

    closed spec fn view(&self) -> WriteState {
        WriteState { len: self.len, packets: packets(self.pending@) }
    }
}

/// What a write of `buf` begins with: a closed connection refuses it, and so does an
/// MTU that the message exceeds.
pub open spec fn write_start<E>(
    conn: ConnState,
    buf: Vec<u8>,
    addr: Addr,
    inner_mtu: u64,
) -> WriteStep<E> {
    if conn.closed {
        WriteStep::Done(Err(Error::Closed))
    } else if buf@.len() > mtu_within(inner_mtu, conn.traffic_overhead) {
        WriteStep::Done(Err(Error::OversizedMessage))
    } else {
        WriteStep::Encrypt { key: addr.0, data: buf }
    }
}

/// The write `write` turns to its first packet, or ends when all are sent.
pub open spec fn write_pending<E>(write: WriteState) -> (WriteState, WriteStep<E>) {
    if write.packets.len() == 0 {
        (write, WriteStep::Done(Ok(write.len)))
    } else {
        let (dest, data) = write.packets.first();
        (
            WriteState { packets: write.packets.drop_first(), ..write },
            WriteStep::Send { dest, data },
        )
    }
}

/// The write `write` takes in an event. Of the session layer's actions only the
/// packets to send matter: a write delivers nothing. The first packet that cannot be
/// sent ends the write.
pub open spec fn write_event<E>(write: WriteState, event: WriteEvent<E>) -> (
    WriteState,
    WriteStep<E>,
) {
    match event {
        WriteEvent::Encrypted(actions) => write_pending(
            WriteState { packets: packets(actions@), ..write },
        ),
        WriteEvent::Sent(Ok(_)) => write_pending(write),
        WriteEvent::Sent(Err(e)) => (
            WriteState { packets: Seq::empty(), ..write },
            WriteStep::Done(Err(Error::Inner(e))),
        ),
    }
}

impl EncryptedPacketConn {
    /// Encrypt the message `buf` and send it to `addr` over an inner connection with
    /// the MTU `inner_mtu`: the first step of the call.
    pub fn write_to<E>(&self, buf: Vec<u8>, addr: &Addr, inner_mtu: u64) -> (r: (
        WriteTo,
        WriteStep<E>,
    ))
        ensures
            r.0@ == (WriteState { len: buf@.len() as usize, packets: Seq::empty() }),
            r.1 == write_start::<E>(self@, buf, *addr, inner_mtu),
    {
        let len: usize = buf.len();
        let write = WriteTo { len, pending: VecDeque::new() };
        if self.is_closed() {
            return (write, WriteStep::Done(Err(Error::Closed)));
        }
        let mtu: u64 = self.mtu(inner_mtu);
        if len as u64 > mtu {
            return (write, WriteStep::Done(Err(Error::OversizedMessage)));
        }
        (write, WriteStep::Encrypt { key: addr.0, data: buf })
    }
}

impl WriteTo {
    /// Go on with a write after `event`.
    pub fn step<E>(&mut self, event: WriteEvent<E>) -> (step: WriteStep<E>)
        ensures
            (final(self)@, step) == write_event(old(self)@, event),
    {
        match event {
            WriteEvent::Encrypted(actions) => {
                self.pending = queue_of(actions);
                self.next_packet()
            },
            WriteEvent::Sent(Ok(_)) => self.next_packet(),
            WriteEvent::Sent(Err(e)) => {
                self.pending.clear();
                WriteStep::Done(Err(Error::Inner(e)))
            },
        }
    }

    /// Turn to the first packet to send.
    fn next_packet<E>(&mut self) -> (step: WriteStep<E>)
        ensures
            (final(self)@, step) == write_pending::<E>(old(self)@),
    {
        loop
            invariant
                self@ == old(self)@,
            decreases self.pending@.len(),
        {
            let ghost before = self.pending@;
            match self.pending.pop_front() {
                None => {
                    return WriteStep::Done(Ok(self.len));
                },
                Some(OutAction::SendToInner { dest, data }) => {
                    proof {
                        assert(packets(before).drop_first() == packets(self.pending@));
                    }
                    return WriteStep::Send { dest: Addr(dest), data };
                },
                Some(OutAction::Deliver { .. }) => {},
            }
        }
    }
}

/// What a write does from `at` on while the inner connection answers its packets with
/// `answers`: the packets that it hands out, and the step that it comes to.
pub open spec fn write_run<E>(at: (WriteState, WriteStep<E>), answers: Seq<Result<usize, E>>) -> (
    Seq<(Addr, Vec<u8>)>,
    WriteStep<E>,
)
    decreases answers.len(),
{
    match at.1 {
        WriteStep::Send { dest, data } if answers.len() > 0 => {
            let next = write_event(at.0, WriteEvent::Sent(answers.first()));
            let (sent, end) = write_run(next, answers.drop_first());
            (seq![(dest, data)] + sent, end)
        },
        _ => (Seq::empty(), at.1),
    }
}

/// A write whose packets can all be sent sends every packet that the session layer asks
/// for, in order and nothing else, and returns the length of the message.
pub proof fn law_write_sends_all_packets<E>(
    write: WriteState,
    actions: Vec<OutAction>,
    answers: Seq<Result<usize, E>>,
)
    requires
        answers.len() == packets(actions@).len(),
        forall|i: int| 0 <= i < answers.len() ==> (#[trigger] answers[i]) is Ok,
    ensures
        write_run(write_event(write, WriteEvent::Encrypted(actions)), answers) == (
            packets(actions@),
            WriteStep::<E>::Done(Ok(write.len)),
        ),
{
    lemma_write_all(WriteState { packets: packets(actions@), ..write }, answers);
}

/// The run of a write whose packets can all be sent.
proof fn lemma_write_all<E>(write: WriteState, answers: Seq<Result<usize, E>>)
    requires
        answers.len() == write.packets.len(),
        forall|i: int| 0 <= i < answers.len() ==> (#[trigger] answers[i]) is Ok,
    ensures
        write_run(write_pending::<E>(write), answers) == (
            write.packets,
            WriteStep::<E>::Done(Ok(write.len)),
        ),
    decreases write.packets.len(),
{
    if write.packets.len() > 0 {
        let rest = WriteState { packets: write.packets.drop_first(), ..write };
        assert(answers[0] is Ok);
        lemma_write_all(rest, answers.drop_first());
        assert(seq![write.packets.first()] + rest.packets =~= write.packets);
    } else {
        assert(write.packets =~= Seq::empty());
    }
}

/// The first packet that cannot be sent ends a write: no later packet is handed out,
/// and the inner connection's error is returned.
pub proof fn law_write_stops_at_first_failure<E>(
    write: WriteState,
    actions: Vec<OutAction>,
    answers: Seq<Result<usize, E>>,
    k: int,
    e: E,
)
    requires
        0 <= k < packets(actions@).len(),
        k < answers.len(),
        forall|i: int| 0 <= i < k ==> (#[trigger] answers[i]) is Ok,
        answers[k] == Err::<usize, E>(e),
    ensures
        write_run(write_event(write, WriteEvent::Encrypted(actions)), answers) == (
            packets(actions@).take(k + 1),
            WriteStep::<E>::Done(Err(Error::Inner(e))),
        ),
{
    lemma_write_failure(WriteState { packets: packets(actions@), ..write }, answers, k, e);
}

/// The run of a write whose packet `k` cannot be sent.
proof fn lemma_write_failure<E>(
    write: WriteState,
    answers: Seq<Result<usize, E>>,
    k: int,
    e: E,
)
    requires
        0 <= k < write.packets.len(),
        k < answers.len(),
        forall|i: int| 0 <= i < k ==> (#[trigger] answers[i]) is Ok,
        answers[k] == Err::<usize, E>(e),
    ensures
        write_run(write_pending::<E>(write), answers) == (
            write.packets.take(k + 1),
            WriteStep::<E>::Done(Err(Error::Inner(e))),
        ),
    decreases k,
{
    let rest = WriteState { packets: write.packets.drop_first(), ..write };
    if k > 0 {
        assert(answers[0] is Ok);
        lemma_write_failure(rest, answers.drop_first(), k - 1, e);
        assert(seq![write.packets.first()] + rest.packets.take(k) =~= write.packets.take(k + 1));
    } else {
        let next = write_event(rest, WriteEvent::Sent(answers.first()));
        assert(write_run(next, answers.drop_first()) == (
            Seq::<(Addr, Vec<u8>)>::empty(),
            next.1,
        ));
        assert(seq![write.packets.first()] + Seq::empty() =~= write.packets.take(1));
    }
}

/// On an open connection a message goes through if and only if it fits: a message that,
/// with the overhead, stays within the inner MTU is handed to the session layer, whole,
/// with the key of its address; so is an empty one. Any other message is refused as
/// oversized. A closed connection refuses every message as closed.
pub proof fn law_write_accepts_what_fits<E>(
    conn: ConnState,
    buf: Vec<u8>,
    addr: Addr,
    inner_mtu: u64,
)
    ensures
        !conn.closed && (buf@.len() + conn.traffic_overhead <= inner_mtu || buf@.len() == 0)
            ==> write_start::<E>(conn, buf, addr, inner_mtu) == (WriteStep::<E>::Encrypt {
            key: addr.0,
            data: buf,
        }),
        !conn.closed && buf@.len() + conn.traffic_overhead > inner_mtu && buf@.len() > 0
            ==> write_start::<E>(conn, buf, addr, inner_mtu) == WriteStep::<E>::Done(
            Err(Error::OversizedMessage),
        ),
        conn.closed ==> write_start::<E>(conn, buf, addr, inner_mtu) == WriteStep::<E>::Done(
            Err(Error::Closed),
        ),
{
}

/// Once the session layer has answered, a write sends the first packet that it asks for,
/// to its destination and with all its data, and keeps the others for later, in their
/// order. If there is none, the write is done and returns the length of the message.
pub proof fn law_write_begins_with_the_first_packet<E>(write: WriteState, actions: Vec<OutAction>)
    ensures
        ({
            let sends = actions@.filter(|a: OutAction| a is SendToInner);
            let (after, step) = write_event(write, WriteEvent::<E>::Encrypted(actions));
            &&& after.len == write.len
            &&& sends.len() == 0 ==> step == WriteStep::<E>::Done(Ok(write.len))
                && after.packets.len() == 0
            &&& sends.len() > 0 ==> step == (WriteStep::<E>::Send {
                dest: Addr(sends[0]->dest),
                data: sends[0]->SendToInner_data,
            }) && after.packets == sends.drop_first().map_values(
                |a: OutAction| (Addr(a->dest), a->SendToInner_data),
            )
        }),
{
    law_packets_are_the_sends(actions@);
    let sends = actions@.filter(|a: OutAction| a is SendToInner);
    let packet = |a: OutAction| (Addr(a->dest), a->SendToInner_data);
    if sends.len() > 0 {
        assert(packets(actions@)[0] == packet(sends[0]));
        assert(packets(actions@).drop_first() =~= sends.drop_first().map_values(packet));
    }
}

/// After each packet that was sent, however many bytes the inner connection counted, a
/// write sends the next one, or returns the length of the message when none is left. A
/// packet that could not be sent ends it with the inner connection's error.
pub proof fn law_write_goes_on_with_the_next_packet<E>(
    write: WriteState,
    answer: Result<usize, E>,
)
    ensures
        ({
            let (after, step) = write_event(write, WriteEvent::Sent(answer));
            &&& after.len == write.len
            &&& answer is Ok && write.packets.len() == 0 ==> step == WriteStep::<E>::Done(
                Ok(write.len),
            ) && after.packets.len() == 0
            &&& answer is Ok && write.packets.len() > 0 ==> step == (WriteStep::<E>::Send {
                dest: write.packets[0].0,
                data: write.packets[0].1,
            }) && write.packets == seq![write.packets[0]] + after.packets
            &&& answer matches Err(e) ==> step == WriteStep::<E>::Done(Err(Error::Inner(e)))
                && after.packets.len() == 0
        }),
{
    let (after, step) = write_event(write, WriteEvent::Sent(answer));
    if answer is Ok && write.packets.len() > 0 {
        assert(write.packets =~= seq![write.packets[0]] + after.packets);
    }
}

} // verus!
