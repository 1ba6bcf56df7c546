//! What holds of the connection's operations together. Laws on a single operation stand
//! beside it.
use crate::actions::OutAction;
use crate::buffer::QueuedMessage;
use crate::cleanup::{cleanup_event, CleanupEvent, CleanupStep};
use crate::close::{close_start, CloseStep};
use crate::conn::ConnState;
use crate::handler::{handler_event, handler_pending, HandlerEvent, HandlerStep};
use crate::read::{
    copied, copied_len, law_notified_read_takes_the_first_message,
    law_read_takes_the_first_message, read_event, read_message, read_start, returns_message,
    ReadEvent, ReadOutcome, ReadStep,
};
use crate::types::{Addr, Error, PublicKey};
use crate::write::{write_start, WriteStep};
use vstd::prelude::*;

verus! {

/// A closed connection refuses every read, write and `close`, and a refused read leaves
/// the buffered messages and the caller's buffer alone.
pub proof fn law_closed_refuses_everything<E>(
    conn: ConnState,
    buf: Seq<u8>,
    message: Vec<u8>,
    addr: Addr,
    inner_mtu: u64,
)
    requires
        conn.closed,
    ensures
        read_start::<E>(conn, buf) == (ReadOutcome::<E> {
            conn,
            pending: Seq::empty(),
            buf,
            step: ReadStep::Done(Err(Error::Closed)),
        }),
        write_start::<E>(conn, message, addr, inner_mtu) == WriteStep::<E>::Done(
            Err(Error::Closed),
        ),
        close_start::<E>(conn) == CloseStep::<E>::Done(Err(Error::Closed)),
{
}

/// `after` is the connection `before` up to its buffered messages, which stay within
/// the capacity if they were.
pub open spec fn same_but_for_messages(before: ConnState, after: ConnState) -> bool {
    &&& after == before.with_buffer(after.buffer)
    &&& before.wf() ==> after.wf()
}

/// Reads and the background reader change nothing of the connection but its buffered
/// messages. So only `close` closes it, nothing opens it again, and its key, its
/// overhead and its read path stay what they were.
pub proof fn law_only_messages_change<E>(
    conn: ConnState,
    pending: Seq<OutAction>,
    buf: Seq<u8>,
    read: ReadEvent<E>,
    handled: HandlerEvent<E>,
)
    ensures
        same_but_for_messages(conn, read_start::<E>(conn, buf).conn),
        same_but_for_messages(conn, read_event(conn, pending, read, buf).conn),
        same_but_for_messages(conn, handler_event(conn, pending, handled).conn),
{
}

/// A use of the connection that may change it. Each carries what it needs besides the
/// connection: the pending actions of its task, the event, the caller's buffer.
pub enum ConnOp<E> {
    /// A read begins.
    Read(Seq<u8>),
    /// A read goes on.
    ReadOn(Seq<OutAction>, ReadEvent<E>, Seq<u8>),
    /// The background reader goes on.
    Handle(Seq<OutAction>, HandlerEvent<E>),
    /// `close` is called.
    Close,
}

/// The connection after such a use.
pub open spec fn conn_after<E>(conn: ConnState, op: ConnOp<E>) -> ConnState {
    match op {
        ConnOp::Read(buf) => read_start::<E>(conn, buf).conn,
        ConnOp::ReadOn(pending, event, buf) => read_event(conn, pending, event, buf).conn,
        ConnOp::Handle(pending, event) => handler_event(conn, pending, event).conn,
        ConnOp::Close => conn.as_closed(),
    }
}

/// The connection after a sequence of uses.
pub open spec fn conn_run<E>(conn: ConnState, ops: Seq<ConnOp<E>>) -> ConnState
    decreases ops.len(),
{
    if ops.len() == 0 {
        conn
    } else {
        conn_after(conn_run(conn, ops.drop_last()), ops.last())
    }
}

/// However a connection is used, its buffer stays within the capacity, its key, overhead
/// and read path stay what they were, and it is closed if and only if it was at first or
/// `close` was called: once closed, it stays closed.
pub proof fn law_every_use_keeps_the_connection<E>(conn: ConnState, ops: Seq<ConnOp<E>>)
    requires
        conn.wf(),
    ensures
        ({
            let after = conn_run(conn, ops);
            &&& after.wf()
            &&& after.signing_key == conn.signing_key
            &&& after.traffic_overhead == conn.traffic_overhead
            &&& after.read_path == conn.read_path
            &&& after.closed <==> (conn.closed || exists|i: int|
                0 <= i < ops.len() && (#[trigger] ops[i]) is Close)
        }),
    decreases ops.len(),
{
    if ops.len() > 0 {
        let front = ops.drop_last();
        law_every_use_keeps_the_connection(conn, front);
        assert forall|i: int| 0 <= i < front.len() implies front[i] == #[trigger] ops[i] by {}
        if ops.last() is Close {
            assert(ops[ops.len() - 1] is Close);
        } else if exists|i: int| 0 <= i < ops.len() && (#[trigger] ops[i]) is Close {
            let i = choose|i: int| 0 <= i < ops.len() && (#[trigger] ops[i]) is Close;
            assert(front[i] is Close);
        }
        if exists|i: int| 0 <= i < front.len() && (#[trigger] front[i]) is Close {
            let i = choose|i: int| 0 <= i < front.len() && (#[trigger] front[i]) is Close;
            assert(ops[i] is Close);
        }
    }
}

/// Cancellation, which `close` brings about, ends whatever waits, at any point: a read
/// returns that the connection is closed, and both background tasks stop.
pub proof fn law_cancellation_ends_everything<E>(
    conn: ConnState,
    pending: Seq<OutAction>,
    buf: Seq<u8>,
    ticking: bool,
)
    ensures
        read_event(conn, pending, ReadEvent::<E>::Cancelled, buf).step == ReadStep::<E>::Done(
            Err(Error::Closed),
        ),
        handler_event(conn, pending, HandlerEvent::<E>::Cancelled).step == HandlerStep::Stop,
        cleanup_event(ticking, CleanupEvent::Cancelled).1 == CleanupStep::Stop,
{
}

/// A message that the background reader delivers to an empty buffer is what the next
/// read returns, whether it begins then or was waiting: the front of the message, as
/// much as fits, and its source.
pub proof fn law_read_returns_what_was_delivered<E>(
    conn: ConnState,
    pending: Seq<OutAction>,
    source: PublicKey,
    data: Vec<u8>,
    buf: Seq<u8>,
)
    requires
        conn.wf(),
        !conn.closed,
        conn.buffer.len() == 0,
    ensures
        ({
            let deliver = seq![OutAction::Deliver { source, data }];
            let delivered = handler_pending(conn, deliver);
            &&& delivered.step == HandlerStep::Buffered { wake: true }
            &&& read_start::<E>(delivered.conn, buf) == read_message::<E>(conn, buf, source, data)
            &&& read_event(delivered.conn, pending, ReadEvent::<E>::Notified, buf)
                == read_message::<E>(conn, buf, source, data)
            &&& returns_message(buf, read_start::<E>(delivered.conn, buf), source, data@)
            &&& returns_message(
                buf,
                read_event(delivered.conn, pending, ReadEvent::<E>::Notified, buf),
                source,
                data@,
            )
        }),
{
    let deliver = seq![OutAction::Deliver { source, data }];
    let delivered = handler_pending(conn, deliver).conn;
    assert(delivered.buffer.drop_first() =~= conn.buffer);
    law_read_takes_the_first_message::<E>(delivered, buf);
    law_notified_read_takes_the_first_message::<E>(delivered, pending, buf);
}

/// What happens to the messages of a connection.
pub enum MessageOp {
    /// The background reader delivers a message.
    Delivered(QueuedMessage),
    /// A read begins with the given buffer.
    Read(Seq<u8>),
    /// A waiting read with the given buffer was notified.
    Resumed(Seq<u8>),
}

/// What became of a sequence of such events.
#[verifier::ext_equal]
pub struct MessageRun<E> {
    /// The connection in the end.
    pub conn: ConnState,
    /// The messages that were delivered and not dropped, in order.
    pub accepted: Seq<QueuedMessage>,
    /// The reads that returned a message, in order, each with the buffer it was given.
    pub reads: Seq<(Seq<u8>, ReadOutcome<E>)>,
}

/// The run goes on with a read that had the given outcome.
pub open spec fn with_read<E>(
    run: MessageRun<E>,
    buf: Seq<u8>,
    outcome: ReadOutcome<E>,
) -> MessageRun<E> {
    MessageRun {
        conn: outcome.conn,
        accepted: run.accepted,
        reads: if outcome.step matches ReadStep::Done(Ok(_)) {
            run.reads.push((buf, outcome))
        } else {
            run.reads
        },
    }
}

/// What becomes of the events `ops` on the connection `conn`.
pub open spec fn message_run<E>(conn: ConnState, ops: Seq<MessageOp>) -> MessageRun<E>
    decreases ops.len(),
{
    if ops.len() == 0 {
        MessageRun { conn, accepted: Seq::empty(), reads: Seq::empty() }
    } else {
        let run = message_run::<E>(conn, ops.drop_last());
        match ops.last() {
            MessageOp::Delivered(msg) => MessageRun {
                conn: handler_pending(
                    run.conn,
                    seq![OutAction::Deliver { source: msg.source, data: msg.data }],
                ).conn,
                accepted: if run.conn.buffer.len() < run.conn.capacity {
                    run.accepted.push(msg)
                } else {
                    run.accepted
                },
                reads: run.reads,
            },
            MessageOp::Read(buf) => with_read(run, buf, read_start(run.conn, buf)),
            MessageOp::Resumed(buf) => with_read(
                run,
                buf,
                read_event(run.conn, Seq::empty(), ReadEvent::Notified, buf),
            ),
        }
    }
}

/// A read with the buffer `buf` returned the message `msg`.
pub open spec fn returned<E>(buf: Seq<u8>, outcome: ReadOutcome<E>, msg: QueuedMessage) -> bool {
    &&& outcome.step == ReadStep::<E>::Done(
        Ok((copied_len(buf, msg.data@) as usize, Addr(msg.source))),
    )
    &&& outcome.buf == copied(buf, msg.data@)
}

/// However deliveries and reads alternate, reads return the messages in the order in
/// which the background reader delivered them, each message once and none skipped: read
/// number `k` returns message number `k` of those that were buffered at first and of
/// those that were accepted since, and what has not been read is still buffered. On a
/// connection that reads from its buffer only, these are all the reads there are.
pub proof fn law_reads_are_in_order<E>(conn: ConnState, ops: Seq<MessageOp>)
    ensures
        ({
            let run = message_run::<E>(conn, ops);
            let all = conn.buffer + run.accepted;
            &&& run.reads.len() <= all.len()
            &&& run.conn.buffer == all.skip(run.reads.len() as int)
            &&& forall|k: int|
                0 <= k < run.reads.len() ==> returned(
                    (#[trigger] run.reads[k]).0,
                    run.reads[k].1,
                    all[k],
                )
        }),
    decreases ops.len(),
{
    let run = message_run::<E>(conn, ops);
    let all = conn.buffer + run.accepted;
    if ops.len() > 0 {
        law_reads_are_in_order::<E>(conn, ops.drop_last());
        let before = message_run::<E>(conn, ops.drop_last());
        let known = conn.buffer + before.accepted;
        match ops.last() {
            MessageOp::Delivered(msg) => {
                if before.conn.buffer.len() < before.conn.capacity {
                    assert(all =~= known.push(msg));
                    assert(run.conn.buffer =~= all.skip(run.reads.len() as int));
                }
            },
            MessageOp::Read(_) | MessageOp::Resumed(_) => {
                if before.conn.buffer.len() > 0 {
                    assert(before.conn.buffer.first() == known[before.reads.len() as int]);
                    assert(before.conn.buffer.drop_first() =~= known.skip(
                        before.reads.len() + 1int,
                    ));
                }
            },
        }
    } else {
        assert(run.conn.buffer =~= all.skip(0));
    }
}

} // verus!
