//! The queue of decrypted messages between the background reader and `read_from`.
use crate::types::{PublicKey, ReadPath};
use std::collections::VecDeque;
use vstd::prelude::*;

verus! {

/// Maximum number of buffered messages while readers may also read inline.
pub const BUFFER_CAPACITY: usize = 64;

/// Maximum number of buffered messages while the buffer is the readers' only source.
pub const BUFFER_ONLY_CAPACITY: usize = 512;

/// The number of messages that a buffer for the given read path holds at most.
pub open spec fn capacity_of(path: ReadPath) -> nat {
    match path {
        ReadPath::Inline => BUFFER_CAPACITY as nat,
        ReadPath::BufferOnly => BUFFER_ONLY_CAPACITY as nat,
    }
}

/// A decrypted message waiting to be delivered.
#[derive(Clone, Debug, PartialEq, Eq)]
pub struct QueuedMessage {
    pub source: PublicKey,
    pub data: Vec<u8>,
}

/// What ended a wait for a message, or that none has begun.
#[derive(Clone, Copy, Debug, PartialEq, Eq, Structural)]
pub enum WaitEvent {
    /// The reader has not waited yet.
    Start,
    /// A push woke the reader.
    Notified,
    /// The connection's background tasks were cancelled.
    Cancelled,
}

/// What a reader of the buffer does next.
#[derive(Debug, PartialEq, Eq)]
pub enum PopStep {
    /// Take this message.
    Message(QueuedMessage),
    /// Wait for a notification or for cancellation.
    Wait,
    /// Give up.
    Cancelled,
}

/// A bounded first-in first-out queue of decrypted messages.
pub struct TrafficBuffer {
    queue: VecDeque<QueuedMessage>,
    capacity: usize,
}

/// The queue `q` after a message `msg` was pushed on it: a full queue drops `msg`.
pub open spec fn pushed(q: Seq<QueuedMessage>, capacity: nat, msg: QueuedMessage) -> Seq<
    QueuedMessage,
> {
    if q.len() < capacity {
        q.push(msg)
    } else {
        q
    }
}

/// The queue `q` after its oldest message was taken: an empty queue stays empty.
pub open spec fn popped(q: Seq<QueuedMessage>) -> Seq<QueuedMessage> {
    if q.len() > 0 {
        q.drop_first()
    } else {
        q
    }
}

/// The message that a pop takes from the queue `q`: the oldest one.
pub open spec fn oldest(q: Seq<QueuedMessage>) -> Option<QueuedMessage> {
    if q.len() > 0 {
        Some(q.first())
    } else {
        None
    }
}

/// Whether a push on the queue `q` asks for a reader to be woken: one might be asleep
/// only if it found the queue empty.
pub open spec fn wakes(q: Seq<QueuedMessage>) -> bool {
    q.len() == 0
}

/// What a reader does that finds the queue `q` when `event` sends it there.
pub open spec fn pop_step(q: Seq<QueuedMessage>, event: WaitEvent) -> PopStep {
    match (event, oldest(q)) {
        (WaitEvent::Cancelled, _) => PopStep::Cancelled,
        (_, Some(msg)) => PopStep::Message(msg),
        (_, None) => PopStep::Wait,
    }
}

/// What that reader leaves of the queue `q`.
pub open spec fn queue_after_pop(q: Seq<QueuedMessage>, event: WaitEvent) -> Seq<QueuedMessage> {
    if event is Cancelled {
        q
    } else {
        popped(q)
    }
}

impl View for TrafficBuffer {
    type V = Seq<QueuedMessage>;

    /// The waiting messages, oldest first.
    closed spec fn view(&self) -> Seq<QueuedMessage> {
        self.queue@
    }
}

impl TrafficBuffer {
    /// The number of messages that the buffer holds at most.
    pub closed spec fn capacity(&self) -> nat {
        self.capacity as nat
    }

    /// There is room for at least one message, and never more than `capacity` wait.
    pub open spec fn wf(&self) -> bool {
        0 < self.capacity() && self@.len() <= self.capacity()
    }

    /// An empty buffer for a connection that reads along `path`.
    pub fn new(path: ReadPath) -> (buffer: TrafficBuffer)
        ensures
            buffer.wf(),
            buffer@ == Seq::<QueuedMessage>::empty(),
            buffer.capacity() == capacity_of(path),
    {
        let capacity: usize = match path {
            ReadPath::Inline => BUFFER_CAPACITY,
            ReadPath::BufferOnly => BUFFER_ONLY_CAPACITY,
        };
        TrafficBuffer { queue: VecDeque::with_capacity(capacity), capacity }
    }

    /// Push a decrypted message; a full buffer drops it. Returns true if a reader
    /// should be woken, that is if the buffer was empty.
    pub fn push(&mut self, msg: QueuedMessage) -> (wake: bool)
        ensures
            final(self)@ == pushed(old(self)@, old(self).capacity(), msg),
            final(self).capacity() == old(self).capacity(),
            old(self).wf() ==> final(self).wf(),
            wake == wakes(old(self)@),
    {
        let was_empty = self.queue.len() == 0;
        if self.queue.len() < self.capacity {
            self.queue.push_back(msg);
        }
        was_empty
    }

    /// Take the oldest message, if there is one.
    pub fn try_pop(&mut self) -> (msg: Option<QueuedMessage>)
        ensures
            msg == oldest(old(self)@),
            final(self)@ == popped(old(self)@),
            final(self).capacity() == old(self).capacity(),
            old(self).wf() ==> final(self).wf(),
    {
        self.queue.pop_front()
    }

    /// One round of waiting for a message: after cancellation the reader gives up,
    /// otherwise it takes the oldest message, or waits (again) if there is none.
    pub fn pop_or_wait(&mut self, event: WaitEvent) -> (step: PopStep)
        ensures
            step == pop_step(old(self)@, event),
            final(self)@ == queue_after_pop(old(self)@, event),
            final(self).capacity() == old(self).capacity(),
            old(self).wf() ==> final(self).wf(),
    {
        match event {
            WaitEvent::Cancelled => PopStep::Cancelled,
            WaitEvent::Start | WaitEvent::Notified => match self.try_pop() {
                Some(msg) => PopStep::Message(msg),
                None => PopStep::Wait,
            },
        }
    }
}

/// A use of the buffer.
pub enum BufferOp {
    /// A message is pushed.
    Push(QueuedMessage),
    /// The oldest message is taken, if there is one.
    Pop,
}

/// What became of a sequence of uses of the buffer.
#[verifier::ext_equal]
pub struct BufferRun {
    /// The messages that wait in the end.
    pub queue: Seq<QueuedMessage>,
    /// The messages that were pushed and not dropped, in the order of the pushes.
    pub accepted: Seq<QueuedMessage>,
    /// The messages that were taken, in the order of the pops.
    pub taken: Seq<QueuedMessage>,
}

/// What becomes of the uses `ops` of a buffer that holds `queue` at first.
pub open spec fn buffer_run(
    queue: Seq<QueuedMessage>,
    capacity: nat,
    ops: Seq<BufferOp>,
) -> BufferRun
    decreases ops.len(),
{
    if ops.len() == 0 {
        BufferRun { queue, accepted: Seq::empty(), taken: Seq::empty() }
    } else {
        let before = buffer_run(queue, capacity, ops.drop_last());
        match ops.last() {
            BufferOp::Push(msg) => BufferRun {
                queue: pushed(before.queue, capacity, msg),
                accepted: if before.queue.len() < capacity {
                    before.accepted.push(msg)
                } else {
                    before.accepted
                },
                taken: before.taken,
            },
            BufferOp::Pop => BufferRun {
                queue: popped(before.queue),
                accepted: before.accepted,
                taken: match oldest(before.queue) {
                    Some(msg) => before.taken.push(msg),
                    None => before.taken,
                },
            },
        }
    }
}

/// However pushes and pops alternate, the messages come out in the order in which they
/// went in: what was taken, followed by what still waits, is what waited at first,
/// followed by what was accepted. Nothing is lost, doubled or made up.
pub proof fn law_first_in_first_out(
    queue: Seq<QueuedMessage>,
    capacity: nat,
    ops: Seq<BufferOp>,
)
    ensures
        ({
            let run = buffer_run(queue, capacity, ops);
            run.taken + run.queue == queue + run.accepted
        }),
    decreases ops.len(),
{
    let run = buffer_run(queue, capacity, ops);
    if ops.len() > 0 {
        law_first_in_first_out(queue, capacity, ops.drop_last());
        let before = buffer_run(queue, capacity, ops.drop_last());
        let all = before.taken + before.queue;
        match ops.last() {
            BufferOp::Push(msg) => {
                if before.queue.len() < capacity {
                    assert(run.taken + run.queue =~= all.push(msg));
                    assert(queue + run.accepted =~= (queue + before.accepted).push(msg));
                }
            },
            BufferOp::Pop => {
                assert(run.taken + run.queue =~= all);
            },
        }
    } else {
        assert(run.taken + run.queue =~= queue + run.accepted);
    }
}

/// However pushes and pops alternate, a buffer never holds more than its capacity.
pub proof fn law_bounded(queue: Seq<QueuedMessage>, capacity: nat, ops: Seq<BufferOp>)
    requires
        queue.len() <= capacity,
    ensures
        buffer_run(queue, capacity, ops).queue.len() <= capacity,
    decreases ops.len(),
{
    if ops.len() > 0 {
        law_bounded(queue, capacity, ops.drop_last());
    }
}

/// Where a reader of the buffer stands.
pub enum ReaderPlace {
    /// It is about to look at the queue, or busy elsewhere.
    Free,
    /// It found the queue empty and is about to wait.
    Turning,
    /// It waits.
    Asleep,
}

/// A buffer with one reader, and with the wake-up cell between the two. The cell keeps
/// one wake-up that nobody waited for.
#[verifier::ext_equal]
pub struct WatchedBuffer {
    pub queue: Seq<QueuedMessage>,
    pub stored_wakeup: bool,
    pub reader: ReaderPlace,
}

/// What happens around a buffer with one reader.
pub enum WatchedEvent {
    /// A message is pushed, and the reader is woken if the push says so.
    Push(QueuedMessage),
    /// The reader looks at the queue.
    Look,
    /// The reader begins to wait. A stored wake-up ends the wait at once.
    Wait,
}

/// The buffer and its reader after an event. An event that the reader is not in the
/// place for changes nothing.
pub open spec fn watched(b: WatchedBuffer, capacity: nat, event: WatchedEvent) -> WatchedBuffer {
    match event {
        WatchedEvent::Push(msg) => {
            let wake = wakes(b.queue);
            WatchedBuffer {
                queue: pushed(b.queue, capacity, msg),
                stored_wakeup: b.stored_wakeup || (wake && !(b.reader is Asleep)),
                reader: if wake && b.reader is Asleep {
                    ReaderPlace::Free
                } else {
                    b.reader
                },
            }
        },
        WatchedEvent::Look if b.reader is Free => WatchedBuffer {
            queue: queue_after_pop(b.queue, WaitEvent::Notified),
            reader: if pop_step(b.queue, WaitEvent::Notified) is Wait {
                ReaderPlace::Turning
            } else {
                ReaderPlace::Free
            },
            ..b
        },
        WatchedEvent::Wait if b.reader is Turning => WatchedBuffer {
            stored_wakeup: false,
            reader: if b.stored_wakeup {
                ReaderPlace::Free
            } else {
                ReaderPlace::Asleep
            },
            ..b
        },
        _ => b,
    }
}

/// The buffer and its reader after a sequence of events.
pub open spec fn watched_run(
    b: WatchedBuffer,
    capacity: nat,
    events: Seq<WatchedEvent>,
) -> WatchedBuffer
    decreases events.len(),
{
    if events.len() == 0 {
        b
    } else {
        watched(watched_run(b, capacity, events.drop_last()), capacity, events.last())
    }
}

/// It is enough to wake the reader on a push to an empty buffer: with one reader, none
/// ever sleeps while a message waits, whatever the order of events. And a reader that
/// turned away from an empty queue does not fall asleep once a message has come.
pub proof fn law_no_reader_sleeps_on_messages(
    capacity: nat,
    events: Seq<WatchedEvent>,
    stored_wakeup: bool,
    queue: Seq<QueuedMessage>,
)
    ensures
        ({
            let start = WatchedBuffer { queue, stored_wakeup, reader: ReaderPlace::Free };
            let b = watched_run(start, capacity, events);
            &&& b.reader is Asleep ==> b.queue.len() == 0
            &&& b.reader is Turning && b.queue.len() > 0 ==> b.stored_wakeup
        }),
    decreases events.len(),
{
    if events.len() > 0 {
        law_no_reader_sleeps_on_messages(capacity, events.drop_last(), stored_wakeup, queue);
    }
}

/// Readers that may also read inline have a buffer for 64 messages, readers that depend
/// on it one for 512.
pub proof fn law_capacity(path: ReadPath)
    ensures
        capacity_of(path) == if path is Inline {
            64nat
        } else {
            512nat
        },
{
}

/// A push keeps every waiting message in its place and puts the new one behind them; only
/// a full buffer drops it, and then nothing changes. A reader is woken if and only if
/// nothing waited before.
pub proof fn law_push_appends(q: Seq<QueuedMessage>, capacity: nat, msg: QueuedMessage)
    ensures
        q.len() < capacity ==> pushed(q, capacity, msg).len() == q.len() + 1 && pushed(
            q,
            capacity,
            msg,
        )[q.len() as int] == msg,
        q.len() >= capacity ==> pushed(q, capacity, msg) == q,
        forall|i: int| 0 <= i < q.len() ==> #[trigger] pushed(q, capacity, msg)[i] == q[i],
        wakes(q) <==> q.len() == 0,
{
}

/// A pop takes the first of the waiting messages, however many there are, and leaves the
/// others in their order. It comes back empty-handed only from an empty buffer.
pub proof fn law_pop_takes_the_first(q: Seq<QueuedMessage>)
    ensures
        q.len() > 0 ==> oldest(q) == Some(q[0]) && q == seq![q[0]] + popped(q),
        q.len() == 0 ==> oldest(q) is None && popped(q).len() == 0,
{
    if q.len() > 0 {
        assert(q =~= seq![q[0]] + popped(q));
    }
}

/// Unless it was cancelled, a reader that finds any message takes the first one, however
/// many wait, and leaves the others in their order; one that finds none waits. A reader
/// gives up if and only if it was cancelled, and then takes nothing.
pub proof fn law_waiting_reader_takes_the_first(q: Seq<QueuedMessage>, event: WaitEvent)
    ensures
        !(event is Cancelled) && q.len() > 0 ==> pop_step(q, event) == PopStep::Message(q[0]) && q
            == seq![q[0]] + queue_after_pop(q, event),
        !(event is Cancelled) && q.len() == 0 ==> pop_step(q, event) is Wait && queue_after_pop(
            q,
            event,
        ).len() == 0,
        pop_step(q, event) is Cancelled <==> event is Cancelled,
        event is Cancelled ==> queue_after_pop(q, event) == q,
{
    if q.len() > 0 && !(event is Cancelled) {
        assert(q =~= seq![q[0]] + queue_after_pop(q, event));
    }
}

} // verus!
