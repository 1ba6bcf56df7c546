//! What the session layer asks for.
use crate::buffer::QueuedMessage;
use crate::types::{Addr, PublicKey};
use std::collections::VecDeque;
use vstd::prelude::*;

verus! {

/// What the session layer asks for in answer to a packet or a message.
#[derive(Debug, PartialEq, Eq)]
pub enum OutAction {
    /// Send `data` to `dest` over the inner connection.
    SendToInner { dest: PublicKey, data: Vec<u8> },
    /// Hand the decrypted `data` from `source` to a reader.
    Deliver { source: PublicKey, data: Vec<u8> },
}

/// The packets to send that the actions ask for, in their order, each with its
/// destination.
pub open spec fn packets(actions: Seq<OutAction>) -> Seq<(Addr, Vec<u8>)>
    decreases actions.len(),
{
    if actions.len() == 0 {
        Seq::empty()
    } else {
        match actions.first() {
            OutAction::SendToInner { dest, data } => seq![(Addr(dest), data)] + packets(
                actions.drop_first(),
            ),
            OutAction::Deliver { .. } => packets(actions.drop_first()),
        }
    }
}

/// The messages to deliver that the actions ask for, in their order.
pub open spec fn messages(actions: Seq<OutAction>) -> Seq<QueuedMessage>
    decreases actions.len(),
{
    if actions.len() == 0 {
        Seq::empty()
    } else {
        match actions.first() {
            OutAction::SendToInner { .. } => messages(actions.drop_first()),
            OutAction::Deliver { source, data } => seq![QueuedMessage { source, data }] + messages(
                actions.drop_first(),
            ),
        }
    }
}

/// The actions as a queue, in the same order.
pub(crate) fn queue_of(actions: Vec<OutAction>) -> (queue: VecDeque<OutAction>)
    ensures
        queue@ == actions@,
{
    let ghost all = actions@;
    let mut rest = actions;
    let mut queue: VecDeque<OutAction> = VecDeque::with_capacity(rest.len());
    while rest.len() > 0
        invariant
            rest@ + queue@ == all,
        decreases rest.len(),
    {
        if let Some(action) = rest.pop() {
            queue.push_front(action);
        }
    }
    queue
}

/// The packets are the actions to send, all of them and no others, in their order; each
/// keeps its destination and every byte of its data.
pub proof fn law_packets_are_the_sends(actions: Seq<OutAction>)
    ensures
        packets(actions) == actions.filter(|a: OutAction| a is SendToInner).map_values(
            |a: OutAction| (Addr(a->dest), a->SendToInner_data),
        ),
    decreases actions.len(),
{
    let is_send = |a: OutAction| a is SendToInner;
    let packet = |a: OutAction| (Addr(a->dest), a->SendToInner_data);
    reveal(Seq::filter);
    if actions.len() > 0 {
        let rest = actions.drop_first();
        law_packets_are_the_sends(rest);
        rest.lemma_filter_prepend(actions.first(), is_send);
        assert(seq![actions.first()] + rest =~= actions);
    }
    assert(packets(actions) =~= actions.filter(is_send).map_values(packet));
}

/// The messages are the actions to deliver, all of them and no others, in their order;
/// each keeps its source and every byte of its data.
pub proof fn law_messages_are_the_deliveries(actions: Seq<OutAction>)
    ensures
        messages(actions) == actions.filter(|a: OutAction| a is Deliver).map_values(
            |a: OutAction| QueuedMessage { source: a->source, data: a->Deliver_data },
        ),
    decreases actions.len(),
{
    let is_delivery = |a: OutAction| a is Deliver;
    let message = |a: OutAction| QueuedMessage { source: a->source, data: a->Deliver_data };
    reveal(Seq::filter);
    if actions.len() > 0 {
        let rest = actions.drop_first();
        law_messages_are_the_deliveries(rest);
        rest.lemma_filter_prepend(actions.first(), is_delivery);
        assert(seq![actions.first()] + rest =~= actions);
    }
    assert(messages(actions) =~= actions.filter(is_delivery).map_values(message));
}

} // verus!
