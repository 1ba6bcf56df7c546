//! The connection: its key, its MTU and its message buffer.
use crate::buffer::{
    capacity_of, oldest, pop_step, popped, pushed, queue_after_pop, wakes, PopStep, QueuedMessage,
    TrafficBuffer, WaitEvent,
};
use crate::types::ReadPath;
use ed25519_dalek::SigningKey;
use vstd::prelude::*;

verus! {

/// Declares `ed25519_dalek::SigningKey`. A key is carried through as an opaque value:
/// nothing is claimed of what is inside.
#[verifier::external_type_specification]
#[verifier::external_body]
pub struct ExSigningKey(ed25519_dalek::SigningKey);

/// The state of a connection as the contracts speak of it.
#[verifier::ext_equal]
pub struct ConnState {
    /// Our Ed25519 signing key.
    pub signing_key: SigningKey,
    /// The bytes that the session layer adds to each message.
    pub traffic_overhead: u64,
    /// Where readers turn when no message is buffered.
    pub read_path: ReadPath,
    /// The number of messages that are buffered at most.
    pub capacity: nat,
    /// The buffered messages, oldest first.
    pub buffer: Seq<QueuedMessage>,
    /// Whether the connection is closed.
    pub closed: bool,
}

impl ConnState {
    /// The buffer has the room that the read path asks for, and never overflows it.
    pub open spec fn wf(self) -> bool {
        self.capacity == capacity_of(self.read_path) && self.buffer.len() <= self.capacity
    }

    /// The same connection with other messages in its buffer.
    pub open spec fn with_buffer(self, buffer: Seq<QueuedMessage>) -> ConnState {
        ConnState { buffer, ..self }
    }

    /// The same connection, closed.
    pub open spec fn as_closed(self) -> ConnState {
        ConnState { closed: true, ..self }
    }
}

/// The length of the longest message that fits an inner connection with the MTU
/// `inner_mtu`: the session overhead is taken off, as far as there is anything left.
pub open spec fn mtu_within(inner_mtu: u64, traffic_overhead: u64) -> u64 {
    if inner_mtu >= traffic_overhead {
        (inner_mtu - traffic_overhead) as u64
    } else {
        0
    }
}

/// An encrypted connection over a network-level one.
pub struct EncryptedPacketConn {
    signing_key: SigningKey,
    traffic_overhead: u64,
    read_path: ReadPath,
    buffer: TrafficBuffer,
    closed: bool,
}

impl View for EncryptedPacketConn {
    type V = ConnState;

    closed spec fn view(&self) -> ConnState {
        ConnState {
            signing_key: self.signing_key,
            traffic_overhead: self.traffic_overhead,
            read_path: self.read_path,
            capacity: self.buffer.capacity(),
            buffer: self.buffer@,
            closed: self.closed,
        }
    }
}

impl EncryptedPacketConn {
    /// A new, open connection with the given private key. Each message that it sends
    /// grows by `traffic_overhead` bytes in the session layer.
    pub fn new(secret: SigningKey, traffic_overhead: u64, read_path: ReadPath) -> (conn:
        EncryptedPacketConn)
        ensures
            conn@ == (ConnState {
                signing_key: secret,
                traffic_overhead,
                read_path,
                capacity: capacity_of(read_path),
                buffer: Seq::empty(),
                closed: false,
            }),
            conn@.wf(),
    {
        EncryptedPacketConn {
            signing_key: secret,
            traffic_overhead,
            read_path,
            buffer: TrafficBuffer::new(read_path),
            closed: false,
        }
    }

    /// Whether the connection is closed.
    pub fn is_closed(&self) -> (closed: bool)
        ensures
            closed == self@.closed,
    {
        self.closed
    }

    /// Our private key.
    pub fn private_key(&self) -> (key: &SigningKey)
        ensures
            *key == self@.signing_key,
    {
        &self.signing_key
    }

    /// Where `read_from` turns when no message is buffered.
    pub fn read_path(&self) -> (path: ReadPath)
        ensures
            path == self@.read_path,
    {
        self.read_path
    }

    /// The MTU of this connection over an inner connection with the MTU `inner_mtu`.
    pub fn mtu(&self, inner_mtu: u64) -> (mtu: u64)
        ensures
            mtu == mtu_within(inner_mtu, self@.traffic_overhead),
    {
        inner_mtu.saturating_sub(self.traffic_overhead)
    }

    /// Mark the connection as closed. Returns true if it was open before.
    pub(crate) fn set_closed(&mut self) -> (was_open: bool)
        ensures
            was_open == !old(self)@.closed,
            final(self)@ == old(self)@.as_closed(),
    {
        let was_open = !self.closed;
        self.closed = true;
        was_open
    }

    /// Buffer a decrypted message. Returns true if a reader should be woken.
    pub(crate) fn push_message(&mut self, msg: QueuedMessage) -> (wake: bool)
        ensures
            final(self)@ == old(self)@.with_buffer(
                pushed(old(self)@.buffer, old(self)@.capacity, msg),
            ),
            old(self)@.wf() ==> final(self)@.wf(),
            wake == wakes(old(self)@.buffer),
    {
        self.buffer.push(msg)
    }

    /// Take the oldest buffered message, if there is one.
    pub(crate) fn try_pop_message(&mut self) -> (msg: Option<QueuedMessage>)
        ensures
            msg == oldest(old(self)@.buffer),
            final(self)@ == old(self)@.with_buffer(popped(old(self)@.buffer)),
            old(self)@.wf() ==> final(self)@.wf(),
    {
        self.buffer.try_pop()
    }

    /// One round of waiting for a buffered message.
    pub(crate) fn pop_message_or_wait(&mut self, event: WaitEvent) -> (step: PopStep)
        ensures
            step == pop_step(old(self)@.buffer, event),
            final(self)@ == old(self)@.with_buffer(queue_after_pop(old(self)@.buffer, event)),
            old(self)@.wf() ==> final(self)@.wf(),
    {
        self.buffer.pop_or_wait(event)
    }
}

/// The session overhead fits: a message within the MTU and the overhead together stay
/// within the MTU of the inner connection. Only the empty message is let through where
/// the overhead alone exceeds it.
pub proof fn law_mtu_leaves_room_for_overhead(inner_mtu: u64, traffic_overhead: u64, len: nat)
    requires
        len <= mtu_within(inner_mtu, traffic_overhead),
    ensures
        len + traffic_overhead <= inner_mtu || (len == 0 && inner_mtu < traffic_overhead),
{
}

/// The MTU gives nothing away: one byte more than it allows would not fit the inner
/// connection.
pub proof fn law_mtu_is_the_longest(inner_mtu: u64, traffic_overhead: u64, len: nat)
    requires
        len > mtu_within(inner_mtu, traffic_overhead),
    ensures
        len + traffic_overhead > inner_mtu,
{
}

/// Where the overhead fits, the MTU is the inner one less the overhead, and smaller than
/// the inner one by just that.
pub proof fn law_mtu_accounts_for_overhead(inner_mtu: u64, traffic_overhead: u64)
    requires
        traffic_overhead <= inner_mtu,
    ensures
        mtu_within(inner_mtu, traffic_overhead) == inner_mtu - traffic_overhead,
        traffic_overhead > 0 ==> mtu_within(inner_mtu, traffic_overhead) < inner_mtu,
{
}

} // verus!
