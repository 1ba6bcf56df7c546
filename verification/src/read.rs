//! One `read_from` call.
//!
//! A call first looks at the buffer. If nothing is there, it either waits for the
//! background reader or reads from the inner connection itself, as the connection's
//! read path says. The caller performs the [`ReadStep`] it is given and reports what
//! came of it as a [`ReadEvent`], until the step is [`ReadStep::Done`].
use crate::actions::{packets, queue_of, OutAction};
use crate::buffer::{oldest, popped, PopStep, WaitEvent};
use crate::conn::{ConnState, EncryptedPacketConn};
use crate::types::{Addr, Error, PublicKey, ReadPath};
use std::collections::VecDeque;
use vstd::prelude::*;

verus! {

/// The size of the buffer that packets of the inner connection are read into.
pub const PACKET_BUFFER_LEN: usize = 131072;

/// What came of a step of a read.
#[derive(Debug, PartialEq, Eq)]
pub enum ReadEvent<E> {
    /// The connection's background tasks were cancelled.
    Cancelled,
    /// A push on the buffer woke the reader.
    Notified,
    /// The inner connection yielded a packet of `len` bytes.
    Received { from: Addr, len: usize },
    /// The inner connection failed to yield a packet.
    Failed(E),
    /// The session layer took in the packet and asks for these actions.
    Handled(Vec<OutAction>),
    /// The inner connection was given a packet to send.
    Sent(Result<usize, E>),
}

/// What a read needs done next.
#[derive(Debug, PartialEq, Eq)]
pub enum ReadStep<E> {
    /// Wait for a notification of the buffer, or for cancellation.
    Wait,
    /// Read a packet from the inner connection, or wait for cancellation.
    ReadInner,
    /// Let the session layer take in the first `len` bytes of the packet buffer.
    HandleData { from: PublicKey, len: usize },
    /// Send `data` over the inner connection.
    Send { dest: Addr, data: Vec<u8> },
    /// Return this to the caller: the number of bytes read and their source.
    Done(Result<(usize, Addr), Error<E>>),
}

/// The actions of the session layer that a read in progress has still to go through.
pub struct ReadFrom {
    pending: VecDeque<OutAction>,
}

impl View for ReadFrom {
    type V = Seq<OutAction>;

    closed spec fn view(&self) -> Seq<OutAction> {
        self.pending@
    }
}

/// The number of bytes of a message that fit the caller's buffer.
pub open spec fn copied_len(buf: Seq<u8>, data: Seq<u8>) -> nat {
    if data.len() <= buf.len() {
        data.len()
    } else {
        buf.len()
    }
}

/// The caller's buffer after a message was copied to its front. What does not fit is
/// cut off; what lies behind the message keeps its value.
pub open spec fn copied(buf: Seq<u8>, data: Seq<u8>) -> Seq<u8> {
    let n = copied_len(buf, data) as int;
    data.take(n) + buf.skip(n)
}

/// All that a step of a read decides: the connection and the caller's buffer as it
/// leaves them, the actions still to go through, and the next step.
#[verifier::ext_equal]
pub struct ReadOutcome<E> {
    pub conn: ConnState,
    pub pending: Seq<OutAction>,
    pub buf: Seq<u8>,
    pub step: ReadStep<E>,
}

/// The read ends with the message `data` from `source`.
pub open spec fn read_message<E>(
    conn: ConnState,
    buf: Seq<u8>,
    source: PublicKey,
    data: Vec<u8>,
) -> ReadOutcome<E> {
    ReadOutcome {
        conn,
        pending: Seq::empty(),
        buf: copied(buf, data@),
        step: ReadStep::Done(Ok((copied_len(buf, data@) as usize, Addr(source)))),
    }
}

/// The read takes the oldest buffered message, or goes on with `if_empty`.
pub open spec fn read_buffered<E>(
    conn: ConnState,
    buf: Seq<u8>,
    if_empty: ReadStep<E>,
) -> ReadOutcome<E> {
    match oldest(conn.buffer) {
        Some(msg) => read_message(
            conn.with_buffer(popped(conn.buffer)),
            buf,
            msg.source,
            msg.data,
        ),
        None => ReadOutcome { conn, pending: Seq::empty(), buf, step: if_empty },
    }
}

/// A read begins: a closed connection refuses it.
pub open spec fn read_start<E>(conn: ConnState, buf: Seq<u8>) -> ReadOutcome<E> {
    if conn.closed {
        ReadOutcome {
            conn,
            pending: Seq::empty(),
            buf,
            step: ReadStep::Done(Err(Error::Closed)),
        }
    } else {
        read_buffered(
            conn,
            buf,
            match conn.read_path {
                ReadPath::Inline => ReadStep::ReadInner,
                ReadPath::BufferOnly => ReadStep::Wait,
            },
        )
    }
}

/// The read turns to the first of the `pending` actions. The first message to
/// deliver ends it, and what was pending behind that message is dropped. When all
/// actions are through, the read turns to the next packet.
pub open spec fn read_pending<E>(
    conn: ConnState,
    pending: Seq<OutAction>,
    buf: Seq<u8>,
) -> ReadOutcome<E> {
    if pending.len() == 0 {
        ReadOutcome { conn, pending, buf, step: ReadStep::ReadInner }
    } else {
        match pending.first() {
            OutAction::SendToInner { dest, data } => ReadOutcome {
                conn,
                pending: pending.drop_first(),
                buf,
                step: ReadStep::Send { dest: Addr(dest), data },
            },
            OutAction::Deliver { source, data } => read_message(conn, buf, source, data),
        }
    }
}

/// A read in progress takes in an event.
pub open spec fn read_event<E>(
    conn: ConnState,
    pending: Seq<OutAction>,
    event: ReadEvent<E>,
    buf: Seq<u8>,
) -> ReadOutcome<E> {
    match event {
        ReadEvent::Cancelled => ReadOutcome {
            conn,
            pending: Seq::empty(),
            buf,
            step: ReadStep::Done(Err(Error::Closed)),
        },
        ReadEvent::Notified => read_buffered(conn, buf, ReadStep::Wait),
        ReadEvent::Received { from, len } => ReadOutcome {
            conn,
            pending: Seq::empty(),
            buf,
            step: ReadStep::HandleData { from: from.0, len },
        },
        ReadEvent::Failed(e) => ReadOutcome {
            conn,
            pending: Seq::empty(),
            buf,
            step: ReadStep::Done(Err(Error::Inner(e))),
        },
        ReadEvent::Handled(actions) => read_pending(conn, actions@, buf),
        // A packet that could not be sent does not end the read.
        ReadEvent::Sent(_) => read_pending(conn, pending, buf),
    }
}

/// Copy as much of `data` as fits to the front of `buf`.
pub fn copy_message(buf: &mut [u8], data: &[u8]) -> (n: usize)
    ensures
        n == copied_len(old(buf)@, data@),
        final(buf)@ == copied(old(buf)@, data@),
{
    let n: usize = if data.len() <= buf.len() {
        data.len()
    } else {
        buf.len()
    };
    let ghost before = buf@;
    let mut i: usize = 0;
    while i < n
        invariant
            i <= n,
            n <= data@.len(),
            n <= before.len(),
            buf@.len() == before.len(),
            forall|k: int| 0 <= k < i ==> buf@[k] == data@[k],
            forall|k: int| i <= k < before.len() ==> buf@[k] == before[k],
        decreases n - i,
    {
        buf[i] = data[i];
        i = i + 1;
    }
    n
}

impl EncryptedPacketConn {
    /// Read a decrypted message into `buf`, cut off at its length: the first step of
    /// the call.
    pub fn read_from<E>(&mut self, buf: &mut [u8]) -> (r: (ReadFrom, ReadStep<E>))
        ensures
            ({
                let after = read_start::<E>(old(self)@, old(buf)@);
                &&& final(self)@ == after.conn
                &&& final(buf)@ == after.buf
                &&& r.0@ == after.pending
                &&& r.1 == after.step
            }),
            old(self)@.wf() ==> final(self)@.wf(),
    {
        let read = ReadFrom { pending: VecDeque::new() };
        if self.is_closed() {
            return (read, ReadStep::Done(Err(Error::Closed)));
        }
        let step = match self.try_pop_message() {
            Some(msg) => {
                let n: usize = copy_message(buf, &msg.data);
                ReadStep::Done(Ok((n, Addr(msg.source))))
            },
            None => match self.read_path() {
                ReadPath::Inline => ReadStep::ReadInner,
                ReadPath::BufferOnly => ReadStep::Wait,
            },
        };
        (read, step)
    }
}

impl ReadFrom {
    /// Go on with a read after `event`.
    pub fn step<E>(
        &mut self,
        conn: &mut EncryptedPacketConn,
        event: ReadEvent<E>,
        buf: &mut [u8],
    ) -> (step: ReadStep<E>)
        ensures
            ({
                let after = read_event(old(conn)@, old(self)@, event, old(buf)@);
                &&& final(conn)@ == after.conn
                &&& final(self)@ == after.pending
                &&& final(buf)@ == after.buf
                &&& step == after.step
            }),
            old(conn)@.wf() ==> final(conn)@.wf(),
    {
        match event {
            ReadEvent::Cancelled => {
                self.pending.clear();
                ReadStep::Done(Err(Error::Closed))
            },
            ReadEvent::Notified => {
                self.pending.clear();
                match conn.pop_message_or_wait(WaitEvent::Notified) {
                    PopStep::Message(msg) => {
                        let n: usize = copy_message(buf, &msg.data);
                        ReadStep::Done(Ok((n, Addr(msg.source))))
                    },
                    PopStep::Wait => ReadStep::Wait,
                    PopStep::Cancelled => ReadStep::Done(Err(Error::Closed)),
                }
            },
            ReadEvent::Received { from, len } => {
                self.pending.clear();
                ReadStep::HandleData { from: from.0, len }
            },
            ReadEvent::Failed(e) => {
                self.pending.clear();
                ReadStep::Done(Err(Error::Inner(e)))
            },
            ReadEvent::Handled(actions) => {
                self.pending = queue_of(actions);
                self.next_pending(buf)
            },
            ReadEvent::Sent(_) => self.next_pending(buf),
        }
    }

    /// Turn to the first pending action.
    fn next_pending<E>(&mut self, buf: &mut [u8]) -> (step: ReadStep<E>)
        ensures
            forall|conn: ConnState|
                {
                    let after = #[trigger] read_pending::<E>(conn, old(self)@, old(buf)@);
                    &&& conn == after.conn
                    &&& final(self)@ == after.pending
                    &&& final(buf)@ == after.buf
                    &&& step == after.step
                },
    {
        match self.pending.pop_front() {
            None => ReadStep::ReadInner,
            Some(OutAction::SendToInner { dest, data }) => ReadStep::Send {
                dest: Addr(dest),
                data,
            },
            Some(OutAction::Deliver { source, data }) => {
                self.pending.clear();
                let n: usize = copy_message(buf, &data);
                ReadStep::Done(Ok((n, Addr(source))))
            },
        }
    }
}

/// The caller gets the front of the message, as much as its buffer holds: all of it if
/// it fits. Nothing else of the buffer changes.
pub proof fn law_read_copies_the_front(buf: Seq<u8>, data: Seq<u8>)
    ensures
        ({
            let n = copied_len(buf, data) as int;
            &&& n <= buf.len() && n <= data.len()
            &&& n == buf.len() || n == data.len()
            &&& copied(buf, data).len() == buf.len()
            &&& copied(buf, data).take(n) == data.take(n)
            &&& copied(buf, data).skip(n) == buf.skip(n)
        }),
{
}

/// What a read does from `outcome` on while the inner connection answers its packets
/// with `answers`: the packets that it hands out, and where it comes to.
pub open spec fn read_run<E>(outcome: ReadOutcome<E>, answers: Seq<Result<usize, E>>) -> (
    Seq<(Addr, Vec<u8>)>,
    ReadOutcome<E>,
)
    decreases answers.len(),
{
    match outcome.step {
        ReadStep::Send { dest, data } if answers.len() > 0 => {
            let next = read_event(
                outcome.conn,
                outcome.pending,
                ReadEvent::Sent(answers.first()),
                outcome.buf,
            );
            let (sent, end) = read_run(next, answers.drop_first());
            (seq![(dest, data)] + sent, end)
        },
        _ => (Seq::empty(), outcome),
    }
}

/// When the session layer asks only for packets to be sent in answer to a packet that a
/// read took in, the read sends them all, in order, whether or not an earlier one could
/// be sent, and turns to the next packet.
pub proof fn law_read_goes_on_without_message<E>(
    conn: ConnState,
    pending: Seq<OutAction>,
    actions: Vec<OutAction>,
    buf: Seq<u8>,
    answers: Seq<Result<usize, E>>,
)
    requires
        answers.len() >= actions@.len(),
        forall|i: int| 0 <= i < actions@.len() ==> (#[trigger] actions@[i]) is SendToInner,
    ensures
        read_run(read_event(conn, pending, ReadEvent::Handled(actions), buf), answers) == (
            packets(actions@),
            ReadOutcome::<E> {
                conn,
                pending: Seq::empty(),
                buf,
                step: ReadStep::ReadInner,
            },
        ),
{
    lemma_read_all(conn, actions@, buf, answers);
}

/// The run of a read over packets to send.
proof fn lemma_read_all<E>(
    conn: ConnState,
    pending: Seq<OutAction>,
    buf: Seq<u8>,
    answers: Seq<Result<usize, E>>,
)
    requires
        answers.len() >= pending.len(),
        forall|i: int| 0 <= i < pending.len() ==> (#[trigger] pending[i]) is SendToInner,
    ensures
        read_run(read_pending::<E>(conn, pending, buf), answers) == (
            packets(pending),
            ReadOutcome::<E> {
                conn,
                pending: Seq::empty(),
                buf,
                step: ReadStep::ReadInner,
            },
        ),
    decreases pending.len(),
{
    if pending.len() > 0 {
        assert(pending[0] is SendToInner);
        lemma_read_all(conn, pending.drop_first(), buf, answers.drop_first());
    } else {
        assert(pending =~= Seq::empty());
    }
}

/// The first message among the session layer's actions ends the read that took in the
/// packet. The packets asked for before it are sent, in order, whether or not an earlier
/// one could be sent; what was asked for behind it is not done.
pub proof fn law_read_ends_with_first_message<E>(
    conn: ConnState,
    pending: Seq<OutAction>,
    actions: Vec<OutAction>,
    buf: Seq<u8>,
    answers: Seq<Result<usize, E>>,
    k: int,
)
    requires
        0 <= k < actions@.len(),
        k <= answers.len(),
        forall|i: int| 0 <= i < k ==> (#[trigger] actions@[i]) is SendToInner,
        actions@[k] is Deliver,
    ensures
        read_run(read_event(conn, pending, ReadEvent::Handled(actions), buf), answers) == (
            packets(actions@.take(k)),
            read_message::<E>(
                conn,
                buf,
                actions@[k]->source,
                actions@[k]->Deliver_data,
            ),
        ),
{
    lemma_read_first(conn, actions@, buf, answers, k);
}

/// The run of a read over actions whose first message is the action `k`.
proof fn lemma_read_first<E>(
    conn: ConnState,
    pending: Seq<OutAction>,
    buf: Seq<u8>,
    answers: Seq<Result<usize, E>>,
    k: int,
)
    requires
        0 <= k < pending.len(),
        k <= answers.len(),
        forall|i: int| 0 <= i < k ==> (#[trigger] pending[i]) is SendToInner,
        pending[k] is Deliver,
    ensures
        read_run(read_pending::<E>(conn, pending, buf), answers) == (
            packets(pending.take(k)),
            read_message::<E>(conn, buf, pending[k]->source, pending[k]->Deliver_data),
        ),
    decreases k,
{
    if k > 0 {
        assert(pending[0] is SendToInner);
        lemma_read_first(conn, pending.drop_first(), buf, answers.drop_first(), k - 1);
        assert(pending.take(k).drop_first() =~= pending.drop_first().take(k - 1));
    }
}

/// On a connection that reads from its buffer only, a read takes nothing from the inner
/// connection and sends nothing over it: it waits for the buffer or ends. So the
/// background reader is the only one to read from the inner connection.
pub proof fn law_buffer_only_leaves_inner_alone<E>(conn: ConnState, buf: Seq<u8>)
    requires
        conn.read_path is BufferOnly,
    ensures
        ({
            let step = read_start::<E>(conn, buf).step;
            step is Wait || step is Done
        }),
        forall|pending: Seq<OutAction>, event: ReadEvent<E>|
            event is Notified || event is Cancelled ==> {
                let step = (#[trigger] read_event(conn, pending, event, buf)).step;
                step is Wait || step is Done
            },
{
}

/// A read returned the message `data` from `source`: the caller's buffer, `before` until
/// then, has the front of the message at its own front, as much as fits, and what lies
/// behind kept its value; the number of those bytes and the source are returned.
pub open spec fn returns_message<E>(
    before: Seq<u8>,
    outcome: ReadOutcome<E>,
    source: PublicKey,
    data: Seq<u8>,
) -> bool {
    &&& outcome.step matches ReadStep::Done(Ok((n, from)))
    &&& from.0 == source
    &&& n <= data.len() && n <= before.len()
    &&& n == data.len() || n == before.len()
    &&& outcome.buf.len() == before.len()
    &&& forall|i: int| 0 <= i < n ==> outcome.buf[i] == data[i]
    &&& forall|i: int| n <= i < before.len() ==> outcome.buf[i] == before[i]
}

/// The end of a read with a message is as `returns_message` says.
proof fn lemma_read_message<E>(conn: ConnState, buf: Seq<u8>, source: PublicKey, data: Vec<u8>)
    ensures
        returns_message(buf, read_message::<E>(conn, buf, source, data), source, data@),
{
    assert(data.len() == data@.len());
}

/// A read on an open connection returns the first buffered message, however many wait,
/// and takes it out of the buffer. If none waits, it turns to the inner connection or
/// waits for the buffer, as the read path says, and changes nothing. A closed connection
/// answers that it is closed, and nothing changes.
pub proof fn law_read_takes_the_first_message<E>(conn: ConnState, buf: Seq<u8>)
    ensures
        ({
            let after = read_start::<E>(conn, buf);
            &&& after.pending.len() == 0
            &&& !conn.closed && conn.buffer.len() > 0 ==> {
                &&& returns_message(buf, after, conn.buffer[0].source, conn.buffer[0].data@)
                &&& after.conn == (ConnState {
                    buffer: conn.buffer.subrange(1, conn.buffer.len() as int),
                    ..conn
                })
            }
            &&& conn.closed || conn.buffer.len() == 0 ==> after.conn == conn && after.buf == buf
            &&& !conn.closed && conn.buffer.len() == 0 && conn.read_path is Inline
                ==> after.step is ReadInner
            &&& !conn.closed && conn.buffer.len() == 0 && conn.read_path is BufferOnly
                ==> after.step is Wait
            &&& conn.closed ==> after.step == ReadStep::<E>::Done(Err(Error::Closed))
        }),
{
    if !conn.closed && conn.buffer.len() > 0 {
        let msg = conn.buffer[0];
        let rest = conn.with_buffer(popped(conn.buffer));
        lemma_read_message::<E>(rest, buf, msg.source, msg.data);
        assert(rest.buffer =~= conn.buffer.subrange(1, conn.buffer.len() as int));
    }
}

/// A waiting read that is notified returns the first buffered message, however many wait,
/// and takes it out of the buffer. If none waits, it waits on and changes nothing.
pub proof fn law_notified_read_takes_the_first_message<E>(
    conn: ConnState,
    pending: Seq<OutAction>,
    buf: Seq<u8>,
)
    ensures
        ({
            let after = read_event(conn, pending, ReadEvent::<E>::Notified, buf);
            &&& after.pending.len() == 0
            &&& conn.buffer.len() > 0 ==> {
                &&& returns_message(buf, after, conn.buffer[0].source, conn.buffer[0].data@)
                &&& after.conn == (ConnState {
                    buffer: conn.buffer.subrange(1, conn.buffer.len() as int),
                    ..conn
                })
            }
            &&& conn.buffer.len() == 0 ==> after.step is Wait && after.conn == conn && after.buf
                == buf
        }),
{
    if conn.buffer.len() > 0 {
        let msg = conn.buffer[0];
        let rest = conn.with_buffer(popped(conn.buffer));
        lemma_read_message::<E>(rest, buf, msg.source, msg.data);
        assert(rest.buffer =~= conn.buffer.subrange(1, conn.buffer.len() as int));
    }
}

/// A packet that a read received goes to the session layer as it came: the key is that of
/// its sender and the length is the length received. Neither the connection nor the
/// caller's buffer changes.
pub proof fn law_read_hands_over_the_packet<E>(
    conn: ConnState,
    pending: Seq<OutAction>,
    buf: Seq<u8>,
    from: Addr,
    len: usize,
)
    ensures
        ({
            let after = read_event(conn, pending, ReadEvent::<E>::Received { from, len }, buf);
            &&& after.step == (ReadStep::<E>::HandleData { from: from.0, len })
            &&& after.conn == conn
            &&& after.buf == buf
            &&& after.pending.len() == 0
        }),
{
}

/// Of the events of a read, cancellation alone makes it answer that the connection is
/// closed, and a failure to receive alone makes it answer with the inner connection's
/// error, which it passes on. Neither changes the connection or the caller's buffer.
pub proof fn law_read_fails_only_for_cause<E>(
    conn: ConnState,
    pending: Seq<OutAction>,
    buf: Seq<u8>,
    event: ReadEvent<E>,
)
    ensures
        ({
            let after = read_event(conn, pending, event, buf);
            &&& after.step == ReadStep::<E>::Done(Err(Error::Closed)) <==> event is Cancelled
            &&& event matches ReadEvent::Failed(e) ==> after.step == ReadStep::<E>::Done(
                Err(Error::Inner(e)),
            )
            &&& after.step matches ReadStep::Done(Err(_)) ==> event is Cancelled || event is Failed
            &&& event is Cancelled || event is Failed ==> after.conn == conn && after.buf == buf
                && after.pending.len() == 0
        }),
{
}

/// A read goes through the actions one by one, in order: those of a fresh answer of the
/// session layer, or those left from before, whether or not a packet could be sent. A
/// packet is sent to its destination with all its data. A message is returned to the
/// caller, and ends the read. When no action is left, the next packet is read. The
/// connection does not change, and the caller's buffer only by a message.
pub proof fn law_read_goes_through_the_actions<E>(
    conn: ConnState,
    pending: Seq<OutAction>,
    buf: Seq<u8>,
    event: ReadEvent<E>,
)
    requires
        event is Handled || event is Sent,
    ensures
        ({
            let todo = if event is Handled {
                event->Handled_0@
            } else {
                pending
            };
            let after = read_event(conn, pending, event, buf);
            &&& after.conn == conn
            &&& todo.len() == 0 ==> after.step is ReadInner && after.buf == buf
                && after.pending.len() == 0
            &&& todo.len() > 0 && todo[0] is SendToInner ==> {
                &&& after.step == (ReadStep::<E>::Send {
                    dest: Addr(todo[0]->dest),
                    data: todo[0]->SendToInner_data,
                })
                &&& todo == seq![todo[0]] + after.pending
                &&& after.buf == buf
            }
            &&& todo.len() > 0 && todo[0] is Deliver ==> {
                &&& returns_message(buf, after, todo[0]->source, todo[0]->Deliver_data@)
                &&& after.pending.len() == 0
            }
        }),
{
    let todo = if event is Handled {
        event->Handled_0@
    } else {
        pending
    };
    let after = read_event(conn, pending, event, buf);
    if todo.len() > 0 {
        match todo[0] {
            OutAction::SendToInner { .. } => {
                assert(todo =~= seq![todo[0]] + after.pending);
            },
            OutAction::Deliver { source, data } => {
                lemma_read_message::<E>(conn, buf, source, data);
            },
        }
    }
}

} // verus!
