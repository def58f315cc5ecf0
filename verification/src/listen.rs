//! The listening end of the broadcast channel: new listeners join here, and nothing is sent.

use crate::feed::{receiver_channel, sender_capacity, sender_channel};
use crate::osc::Message;
use tokio::sync::broadcast;
use vstd::prelude::*;

verus! {

/// Where listeners join a channel. It holds a handle on the channel, which only a sender can be,
/// and keeps it to itself, so that the channel stays open and nothing can be sent from here.
pub struct ListenEnd {
    tx: broadcast::Sender<Message>,
}

/// Calls the `clone` of `tokio::sync::broadcast::Sender`: a second handle on the same channel.
#[verifier::external_body]
fn clone_sender(tx: &broadcast::Sender<Message>) -> (copy: broadcast::Sender<Message>)
    ensures
        sender_channel(copy) == sender_channel(*tx),
        sender_capacity(copy) == sender_capacity(*tx),
{
    tx.clone()
}

/// Calls `tokio::sync::broadcast::Sender::subscribe`: the receiver listens to the sender's
/// channel. What it will hear rests on what is sent later. The call panics where the channel
/// already has a quarter of `usize::MAX` receivers, which no memory can hold.
#[verifier::external_body]
fn subscribe(tx: &broadcast::Sender<Message>) -> (rx: broadcast::Receiver<Message>)
    ensures
        receiver_channel(rx) == sender_channel(*tx),
{
    tx.subscribe()
}

impl ListenEnd {
    /// The channel that listeners join.
    pub closed spec fn channel(&self) -> int {
        sender_channel(self.tx)
    }

    /// The capacity that the channel was made with.
    pub closed spec fn capacity(&self) -> nat {
        sender_capacity(self.tx)
    }

    /// The listening end of a sender's channel.
    pub(crate) fn new(tx: &broadcast::Sender<Message>) -> (r: ListenEnd)
        ensures
            r.channel() == sender_channel(*tx),
            r.capacity() == sender_capacity(*tx),
    {
        ListenEnd { tx: clone_sender(tx) }
    }

    /// A new listener on the channel.
    pub(crate) fn listen(&self) -> (rx: broadcast::Receiver<Message>)
        ensures
            receiver_channel(rx) == self.channel(),
    {
        subscribe(&self.tx)
    }
}

/// A listening end belongs to the channel of the one handle that it holds.
proof fn law_listen_end_is_its_handle(end: ListenEnd)
    ensures
        end.channel() == sender_channel(end.tx),
        end.capacity() == sender_capacity(end.tx),
{
}

} // verus!
