//! The background reader: it reads packets from the inner connection, lets the
//! session layer take them in, answers the session protocol and buffers the decrypted
//! traffic for `read_from`.
use crate::actions::{messages, packets, queue_of, OutAction};
use crate::buffer::{pushed, wakes, QueuedMessage};
use crate::conn::{ConnState, EncryptedPacketConn};
use crate::types::{Addr, PublicKey};
use std::collections::VecDeque;
use vstd::prelude::*;

verus! {

/// What came of a step of the background reader.
#[derive(Debug, PartialEq, Eq)]
pub enum HandlerEvent<E> {
    /// The task was started.
    Started,
    /// The connection's background tasks were cancelled.
    Cancelled,
    /// The inner connection yielded a packet of `len` bytes.
    Received { from: Addr, len: usize },
    /// The inner connection failed to yield a packet.
    Failed(E),
    /// The session layer took in the packet and asks for these actions.
    Handled(Vec<OutAction>),
    /// The inner connection was given a packet to send.
    Sent(Result<usize, E>),
    /// A buffered message was seen to: a reader was woken, if one had to be.
    Announced,
}

/// What the background reader needs done next.
#[derive(Debug, PartialEq, Eq)]
pub enum HandlerStep {
    /// Read a packet from the inner connection, or wait for cancellation.
    ReadInner,
    /// Let the session layer take in the first `len` bytes of the packet buffer.
    HandleData { from: PublicKey, len: usize },
    /// Send `data` over the inner connection.
    Send { dest: Addr, data: Vec<u8> },
    /// A message went to the buffer: wake a reader if `wake` is set.
    Buffered { wake: bool },
    /// End the task.
    Stop,
}

/// The actions of the session layer that the background reader has still to go
/// through.
pub struct SessionHandler {
    pending: VecDeque<OutAction>,
}

impl View for SessionHandler {
    type V = Seq<OutAction>;

    closed spec fn view(&self) -> Seq<OutAction> {
        self.pending@
    }
}

/// All that a step of the background reader decides.
#[verifier::ext_equal]
pub struct HandlerOutcome {
    pub conn: ConnState,
    pub pending: Seq<OutAction>,
    pub step: HandlerStep,
}

/// The connection after a message was buffered.
pub open spec fn with_message(conn: ConnState, msg: QueuedMessage) -> ConnState {
    conn.with_buffer(pushed(conn.buffer, conn.capacity, msg))
}

/// The background reader turns to the first of the `pending` actions, or to the next
/// packet when all are through.
pub open spec fn handler_pending(conn: ConnState, pending: Seq<OutAction>) -> HandlerOutcome {
    if pending.len() == 0 {
        HandlerOutcome { conn, pending, step: HandlerStep::ReadInner }
    } else {
        match pending.first() {
            OutAction::SendToInner { dest, data } => HandlerOutcome {
                conn,
                pending: pending.drop_first(),
                step: HandlerStep::Send { dest: Addr(dest), data },
            },
            OutAction::Deliver { source, data } => HandlerOutcome {
                conn: with_message(conn, QueuedMessage { source, data }),
                pending: pending.drop_first(),
                step: HandlerStep::Buffered { wake: wakes(conn.buffer) },
            },
        }
    }
}

/// The background reader takes in an event.
pub open spec fn handler_event<E>(
    conn: ConnState,
    pending: Seq<OutAction>,
    event: HandlerEvent<E>,
) -> HandlerOutcome {
    match event {
        HandlerEvent::Started => HandlerOutcome {
            conn,
            pending: Seq::empty(),
            step: HandlerStep::ReadInner,
        },
        HandlerEvent::Cancelled | HandlerEvent::Failed(_) => HandlerOutcome {
            conn,
            pending: Seq::empty(),
            step: HandlerStep::Stop,
        },
        HandlerEvent::Received { from, len } => HandlerOutcome {
            conn,
            pending: Seq::empty(),
            step: HandlerStep::HandleData { from: from.0, len },
        },
        HandlerEvent::Handled(actions) => handler_pending(conn, actions@),
        // A packet that could not be sent does not end the task.
        HandlerEvent::Sent(_) | HandlerEvent::Announced => handler_pending(conn, pending),
    }
}

impl SessionHandler {
    /// A background reader that has not started yet.
    pub fn new() -> (handler: SessionHandler)
        ensures
            handler@ == Seq::<OutAction>::empty(),
    {
        SessionHandler { pending: VecDeque::new() }
    }

    /// Go on after `event`.
    pub fn step<E>(&mut self, conn: &mut EncryptedPacketConn, event: HandlerEvent<E>) -> (step:
        HandlerStep)
        ensures
            ({
                let after = handler_event(old(conn)@, old(self)@, event);
                &&& final(conn)@ == after.conn
                &&& final(self)@ == after.pending
                &&& step == after.step
            }),
            old(conn)@.wf() ==> final(conn)@.wf(),
    {
        match event {
            HandlerEvent::Started => {
                self.pending.clear();
                HandlerStep::ReadInner
            },
            HandlerEvent::Cancelled | HandlerEvent::Failed(_) => {
                self.pending.clear();
                HandlerStep::Stop
            },
            HandlerEvent::Received { from, len } => {
                self.pending.clear();
                HandlerStep::HandleData { from: from.0, len }
            },
            HandlerEvent::Handled(actions) => {
                self.pending = queue_of(actions);
                self.next_pending(conn)
            },
            HandlerEvent::Sent(_) | HandlerEvent::Announced => self.next_pending(conn),
        }
    }

    /// Turn to the first pending action.
    fn next_pending(&mut self, conn: &mut EncryptedPacketConn) -> (step: HandlerStep)
        ensures
            ({
                let after = handler_pending(old(conn)@, old(self)@);
                &&& final(conn)@ == after.conn
                &&& final(self)@ == after.pending
                &&& step == after.step
            }),
            old(conn)@.wf() ==> final(conn)@.wf(),
    {
        match self.pending.pop_front() {
            None => HandlerStep::ReadInner,
            Some(OutAction::SendToInner { dest, data }) => HandlerStep::Send {
                dest: Addr(dest),
                data,
            },
            Some(OutAction::Deliver { source, data }) => {
                let wake = conn.push_message(QueuedMessage { source, data });
                HandlerStep::Buffered { wake }
            },
        }
    }
}

/// What the background reader does from `outcome` on, until it turns to the next
/// packet or stops: the packets that it sends, how often it wakes a reader, and where
/// it ends. The inner connection's answers to the packets are `answers`, one for each
/// step, of which only those to packets count.
pub open spec fn handler_run<E>(outcome: HandlerOutcome, answers: Seq<Result<usize, E>>) -> (
    Seq<(Addr, Vec<u8>)>,
    nat,
    HandlerOutcome,
)
    decreases answers.len(),
{
    if answers.len() == 0 {
        (Seq::empty(), 0, outcome)
    } else {
        match outcome.step {
            HandlerStep::Send { dest, data } => {
                let next = handler_event(
                    outcome.conn,
                    outcome.pending,
                    HandlerEvent::Sent(answers.first()),
                );
                let (sent, woken, end) = handler_run(next, answers.drop_first());
                (seq![(dest, data)] + sent, woken, end)
            },
            HandlerStep::Buffered { wake } => {
                let next = handler_event(
                    outcome.conn,
                    outcome.pending,
                    HandlerEvent::<E>::Announced,
                );
                let (sent, woken, end) = handler_run(next, answers.drop_first());
                (sent, if wake { woken + 1 } else { woken }, end)
            },
            _ => (Seq::empty(), 0, outcome),
        }
    }
}

/// The messages `queue` with `more` behind them, cut off at `capacity`.
pub open spec fn filled_up(
    queue: Seq<QueuedMessage>,
    capacity: nat,
    more: Seq<QueuedMessage>,
) -> Seq<QueuedMessage> {
    if queue.len() + more.len() <= capacity {
        queue + more
    } else {
        (queue + more).take(capacity as int)
    }
}

/// Whatever the session layer asks for in answer to a packet, the background reader
/// sends every packet of it, in order, whether or not an earlier one could be sent; it
/// buffers every message of it, in order, until the buffer is full; it wakes a reader
/// once if the buffer was empty and a message came; and it turns to the next packet.
pub proof fn law_handler_sees_to_all_actions<E>(
    conn: ConnState,
    pending: Seq<OutAction>,
    actions: Vec<OutAction>,
    answers: Seq<Result<usize, E>>,
)
    requires
        conn.wf(),
        answers.len() >= actions@.len(),
    ensures
        ({
            let start = handler_event(conn, pending, HandlerEvent::<E>::Handled(actions));
            let (sent, woken, end) = handler_run(start, answers);
            &&& sent == packets(actions@)
            &&& end.conn == conn.with_buffer(
                filled_up(conn.buffer, conn.capacity, messages(actions@)),
            )
            &&& end.conn.wf()
            &&& end.step == HandlerStep::ReadInner
            &&& woken == if wakes(conn.buffer) && messages(actions@).len() > 0 {
                1nat
            } else {
                0nat
            }
        }),
{
    lemma_handler_run(conn, actions@, answers);
}

/// The run of the background reader over the actions `pending`.
proof fn lemma_handler_run<E>(
    conn: ConnState,
    pending: Seq<OutAction>,
    answers: Seq<Result<usize, E>>,
)
    requires
        conn.wf(),
        answers.len() >= pending.len(),
    ensures
        ({
            let (sent, woken, end) = handler_run(handler_pending(conn, pending), answers);
            &&& sent == packets(pending)
            &&& end.conn == conn.with_buffer(
                filled_up(conn.buffer, conn.capacity, messages(pending)),
            )
            &&& end.conn.wf()
            &&& end.step == HandlerStep::ReadInner
            &&& woken == if wakes(conn.buffer) && messages(pending).len() > 0 {
                1nat
            } else {
                0nat
            }
        }),
    decreases pending.len(),
{
    if pending.len() == 0 {
        assert(conn.buffer + messages(pending) =~= conn.buffer);
    } else {
        let next = handler_pending(conn, pending);
        lemma_handler_run(next.conn, next.pending, answers.drop_first());
        match pending.first() {
            OutAction::SendToInner { .. } => {},
            OutAction::Deliver { source, data } => {
                let msg = QueuedMessage { source, data };
                let more = messages(pending.drop_first());
                assert(messages(pending) == seq![msg] + more);
                assert(filled_up(next.conn.buffer, conn.capacity, more) =~= filled_up(
                    conn.buffer,
                    conn.capacity,
                    messages(pending),
                ));
            },
        }
    }
}

/// A received packet goes to the session layer as it came: the key is that of its sender
/// and the length is the length received. The connection does not change.
pub proof fn law_handler_hands_over_the_packet<E>(
    conn: ConnState,
    pending: Seq<OutAction>,
    from: Addr,
    len: usize,
)
    ensures
        ({
            let after = handler_event(conn, pending, HandlerEvent::<E>::Received { from, len });
            &&& after.step == (HandlerStep::HandleData { from: from.0, len })
            &&& after.conn == conn
            &&& after.pending.len() == 0
        }),
{
}

/// The background reader begins with reading a packet. It stops if and only if it was
/// cancelled or the inner connection failed to yield a packet; a packet that could not be
/// sent does not stop it. None of this changes the connection.
pub proof fn law_handler_stops_only_at_the_end<E>(
    conn: ConnState,
    pending: Seq<OutAction>,
    event: HandlerEvent<E>,
)
    ensures
        ({
            let after = handler_event(conn, pending, event);
            &&& after.step is Stop <==> event is Cancelled || event is Failed
            &&& event is Started ==> after.step is ReadInner
            &&& event is Started || event is Cancelled || event is Failed ==> after.conn == conn
                && after.pending.len() == 0
        }),
{
}

/// The background reader goes through the actions one by one, in order: those of a fresh
/// answer of the session layer, or those left from before, whatever became of the step in
/// between. A packet is sent to its destination with all its data. A message goes to the
/// buffer with its source and all its data, behind the messages that wait there, unless
/// the buffer is full; a reader is woken if and only if none waited. When no action is
/// left, the next packet is read. Nothing else of the connection changes.
pub proof fn law_handler_goes_through_the_actions<E>(
    conn: ConnState,
    pending: Seq<OutAction>,
    event: HandlerEvent<E>,
)
    requires
        event is Handled || event is Sent || event is Announced,
    ensures
        ({
            let todo = if event is Handled {
                event->Handled_0@
            } else {
                pending
            };
            let after = handler_event(conn, pending, event);
            &&& todo.len() == 0 ==> after.step is ReadInner && after.conn == conn
                && after.pending.len() == 0
            &&& todo.len() > 0 ==> todo == seq![todo[0]] + after.pending
            &&& todo.len() > 0 && todo[0] is SendToInner ==> after.conn == conn && after.step == (
            HandlerStep::Send { dest: Addr(todo[0]->dest), data: todo[0]->SendToInner_data })
            &&& todo.len() > 0 && todo[0] is Deliver ==> after.step == (HandlerStep::Buffered {
                wake: conn.buffer.len() == 0,
            }) && after.conn == (ConnState {
                buffer: if conn.buffer.len() < conn.capacity {
                    conn.buffer.push(
                        QueuedMessage { source: todo[0]->source, data: todo[0]->Deliver_data },
                    )
                } else {
                    conn.buffer
                },
                ..conn
            })
        }),
{
    let todo = if event is Handled {
        event->Handled_0@
    } else {
        pending
    };
    let after = handler_event(conn, pending, event);
    if todo.len() > 0 {
        assert(todo =~= seq![todo[0]] + after.pending);
    }
}

} // verus!
