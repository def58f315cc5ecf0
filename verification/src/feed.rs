//! The broadcast channel on which received messages reach whoever waits for a reply.

use crate::listen::ListenEnd;
use crate::osc::{
    all_messages, lemma_messages_push, lemma_packets_view, messages, packets_view, Message,
    MessageView, Packet, PacketView,
};
use crate::wire::{decode, decoding};
use tokio::sync::broadcast;
use vstd::prelude::*;

verus! {

/// The sending side of a broadcast channel of `tokio`.
#[verifier::external_type_specification]
#[verifier::external_body]
#[verifier::reject_recursive_types(T)]
pub struct ExSender<T>(broadcast::Sender<T>);

/// The receiving side of a broadcast channel of `tokio`.
#[verifier::external_type_specification]
#[verifier::external_body]
#[verifier::reject_recursive_types(T)]
pub struct ExReceiver<T>(broadcast::Receiver<T>);

/// What comes back of a value that nobody was there to receive.
#[verifier::external_type_specification]
#[verifier::external_body]
#[verifier::reject_recursive_types(T)]
pub struct ExSendError<T>(broadcast::error::SendError<T>);

/// The channel that a sender sends to.
pub uninterp spec fn sender_channel(tx: broadcast::Sender<Message>) -> int;

/// The channel that a receiver listens to.
pub uninterp spec fn receiver_channel(rx: broadcast::Receiver<Message>) -> int;

/// The capacity that a sender's channel was made with.
pub uninterp spec fn sender_capacity(tx: broadcast::Sender<Message>) -> nat;

/// The message that a failed send gives back.
pub uninterp spec fn unsent(error: broadcast::error::SendError<Message>) -> MessageView;

/// All that was handed to a channel through a sender, in that order. Each handle on a channel has a
/// log of its own.
pub uninterp spec fn sends(tx: broadcast::Sender<Message>) -> Seq<Sent>;

/// A message that was handed to a channel, and how many receivers the channel had at that moment.
pub struct Sent {
    pub message: MessageView,
    pub receivers: usize,
}

/// How many messages the channel keeps for a receiver that is behind.
pub const CAPACITY: usize = 16;

/// Calls `tokio::sync::broadcast::channel`: both ends belong to one channel, made with the
/// capacity asked for, and nothing is sent yet. The channel is a new allocation, so it is not the
/// one that `earlier`, which is still held during the call, belongs to. The call panics on a
/// capacity of zero or above half of `usize::MAX`.
#[verifier::external_body]
fn new_channel(capacity: usize, earlier: &Option<ListenEnd>) -> (ends: (
    broadcast::Sender<Message>,
    broadcast::Receiver<Message>,
))
    requires
        0 < capacity <= usize::MAX / 2,
    ensures
        receiver_channel(ends.1) == sender_channel(ends.0),
        sender_capacity(ends.0) == capacity,
        sends(ends.0) == Seq::<Sent>::empty(),
        *earlier matches Some(end) ==> sender_channel(ends.0) != end.channel(),
{
    broadcast::channel(capacity)
}

/// Calls `tokio::sync::broadcast::Sender::send`: the message is handed to the sender's channel.
/// Whether it succeeds rests on who listens at that moment: it gives the number of receivers where
/// there is one, and the message back where there is none.
#[verifier::external_body]
fn send(tx: &mut broadcast::Sender<Message>, message: Message) -> (r: Result<
    usize,
    broadcast::error::SendError<Message>,
>)
    ensures
        sender_channel(*final(tx)) == sender_channel(*old(tx)),
        match r {
            Ok(receivers) => {
                &&& receivers > 0
                &&& sends(*final(tx)) == sends(*old(tx)).push(
                    (Sent { message: message@, receivers }),
                )
            },
            Err(error) => {
                &&& unsent(error) == message@
                &&& sends(*final(tx)) == sends(*old(tx)).push(
                    (Sent { message: message@, receivers: 0 }),
                )
            },
        },
{
    tx.send(message)
}

/// Why the console cannot be reached or heard.
#[derive(Debug)]
pub enum Error {
    /// Nothing receives yet: there is no channel to listen to.
    NotReceiving,
    /// A message cannot be encoded.
    Encode(rosc::OscError),
    /// Nobody listened for a message.
    Unheard(broadcast::error::SendError<Message>),
}

impl Error {
    /// What the error says, where that does not rest on an error of another crate.
    pub fn text(&self) -> (text: Option<String>)
        ensures
            match text {
                Some(text) => *self is NotReceiving && text@ == "Receive channel not initialized"@,
                None => !(*self is NotReceiving),
            },
    {
        match self {
            Error::NotReceiving => Some("Receive channel not initialized".to_owned()),
            _ => None,
        }
    }
}

/// Why the poller stopped.
#[derive(Debug)]
pub enum PollError<E> {
    /// No datagram could be received.
    Receive(E),
    /// A datagram, given with its padding, is no OSC packet.
    Decode(rosc::OscError, Vec<u8>),
}

/// Hands the messages of each datagram that arrives to the broadcast channel. The poller's is the
/// one handle that anything is sent through.
pub struct Poller {
    tx: broadcast::Sender<Message>,
}

/// The zeros put behind each datagram before it is decoded: the decoder looks for padding behind a
/// blob that the console does not send.
pub open spec fn padding() -> Seq<u8> {
    seq![0u8, 0, 0, 0, 0, 0, 0, 0]
}

/// The messages of a log, heard or not.
pub open spec fn handed(log: Seq<Sent>) -> Seq<MessageView> {
    log.map_values(|sent: Sent| sent.message)
}

/// The messages of a log that somebody listened for.
pub open spec fn heard_of(log: Seq<Sent>) -> Seq<MessageView>
    decreases log.len(),
{
    if log.len() == 0 {
        Seq::empty()
    } else if log.last().receivers > 0 {
        heard_of(log.drop_last()).push(log.last().message)
    } else {
        heard_of(log.drop_last())
    }
}

/// Whether somebody listened for each message of a log.
pub open spec fn all_heard(log: Seq<Sent>) -> bool {
    forall|i: int| 0 <= i < log.len() ==> (#[trigger] log[i]).receivers > 0
}

/// What a log has gained.
pub open spec fn gained(before: Seq<Sent>, after: Seq<Sent>) -> Seq<Sent> {
    after.skip(before.len() as int)
}

/// Whether a run of messages was handed to the channel through a handle, each of them once and in
/// their order, and nothing else through that handle.
pub open spec fn delivery(before: Seq<Sent>, after: Seq<Sent>, run: Seq<MessageView>) -> bool {
    before.is_prefix_of(after) && handed(gained(before, after)) == run
}

/// What the sends of a log come to: a success where each message was heard, and otherwise an error
/// with the first that was not.
pub open spec fn verdict(log: Seq<Sent>, outcome: Result<(), Error>) -> bool {
    match outcome {
        Ok(_) => all_heard(log),
        Err(Error::Unheard(error)) => exists|k: int|
            {
                &&& 0 <= k < log.len()
                &&& all_heard(log.take(k))
                &&& (#[trigger] log[k]).receivers == 0
                &&& unsent(error) == log[k].message
            },
        Err(_) => false,
    }
}

/// What a send to the channel comes to.
pub fn sent_or_unheard(outcome: Result<usize, broadcast::error::SendError<Message>>) -> (r: Result<
    (),
    Error,
>)
    ensures
        r == (match outcome {
            Ok(_) => Ok::<(), Error>(()),
            Err(error) => Err(Error::Unheard(error)),
        }),
{
    match outcome {
        Ok(_) => Ok(()),
        Err(error) => Err(Error::Unheard(error)),
    }
}

impl Poller {
    /// The channel that the poller hands messages to.
    pub closed spec fn channel(&self) -> int {
        sender_channel(self.tx)
    }

    /// All that was handed to the channel so far through the poller's handle.
    pub closed spec fn log(&self) -> Seq<Sent> {
        sends(self.tx)
    }

    /// Hands one message to the channel.
    fn publish(&mut self, message: Message) -> (r: Result<(), Error>)
        ensures
            final(self).channel() == old(self).channel(),
            delivery(old(self).log(), final(self).log(), seq![message@]),
            verdict(gained(old(self).log(), final(self).log()), r),
    {
        let ghost text = message@;
        let outcome = send(&mut self.tx, message);
        proof {
            let log = gained(old(self).log(), self.log());
            assert(log.len() == 1 && log[0].message == text);
            assert(handed(log) == seq![text]);
        }
        sent_or_unheard(outcome)
    }

    /// Hands the messages of a packet to the channel, bundles opened on every level. All of them
    /// are handed over, whoever listens; the error has the first that nobody listened for.
    pub fn recurse_send(&mut self, packet: Packet) -> (r: Result<(), Error>)
        ensures
            final(self).channel() == old(self).channel(),
            delivery(old(self).log(), final(self).log(), messages(packet@)),
            verdict(gained(old(self).log(), final(self).log()), r),
        decreases packet,
    {
        match packet {
            Packet::Message(message) => self.publish(message),
            Packet::Bundle(content) => {
                let mut outcome: Result<(), Error> = Ok(());
                let ghost before = self.log();
                let ghost views = packets_view(content@);
                proof {
                    lemma_packets_view(content@);
                    assert(gained(before, before) == Seq::<Sent>::empty());
                    assert(handed(gained(before, before)) == all_messages(views.take(0)));
                }
                for inner in iter: content
                    invariant
                        self.channel() == old(self).channel(),
                        before == old(self).log(),
                        iter.seq() == content@,
                        packet == Packet::Bundle(content),
                        views == packets_view(content@),
                        views.len() == content@.len(),
                        forall|i: int| 0 <= i < views.len() ==> #[trigger] views[i] == content@[i]@,
                        delivery(before, self.log(), all_messages(views.take(iter.index() as int))),
                        verdict(gained(before, self.log()), outcome),
                {
                    let ghost done = iter.index() as int;
                    let ghost middle = self.log();
                    let ghost first = outcome;
                    proof {
                        assert(views[done] == inner@);
                        assert(decreases_to!(packet => packet->Bundle_0));
                        assert(decreases_to!(content => content@));
                        assert(decreases_to!(content@ => content@[done]));
                    }
                    let second = self.recurse_send(inner);
                    proof {
                        assert(views.take(done + 1) == views.take(done).push(views[done]));
                        lemma_messages_push(views.take(done), views[done]);
                        law_deliveries_join(
                            before,
                            middle,
                            self.log(),
                            all_messages(views.take(done)),
                            messages(views[done]),
                        );
                        lemma_gained_join(before, middle, self.log());
                        lemma_verdict_join(
                            gained(before, middle),
                            gained(middle, self.log()),
                            first,
                            second,
                        );
                    }
                    outcome = match outcome {
                        Ok(()) => second,
                        Err(error) => Err(error),
                    };
                }
                assert(views.take(views.len() as int) == views);
                outcome
            },
        }
    }

    /// Passes on what the receiver came back with: the messages of a datagram go to the channel,
    /// where those that nobody listens for are dropped. The poller goes on after a success and
    /// stops on an error.
    pub fn received<E>(&mut self, outcome: Result<Vec<u8>, E>) -> (r: Result<(), PollError<E>>)
        ensures
            final(self).channel() == old(self).channel(),
            match outcome {
                Err(error) => {
                    &&& r == Err::<(), PollError<E>>(PollError::Receive(error))
                    &&& final(self).log() == old(self).log()
                },
                Ok(datagram) => match decoding(datagram@ + padding()) {
                    Err(error) => {
                        &&& r matches Err(PollError::Decode(e, padded))
                        &&& e == error
                        &&& padded@ == datagram@ + padding()
                        &&& final(self).log() == old(self).log()
                    },
                    Ok(packet) => {
                        &&& r == Ok::<(), PollError<E>>(())
                        &&& delivery(old(self).log(), final(self).log(), messages(packet))
                    },
                },
            },
    {
        let mut datagram = match outcome {
            Ok(datagram) => datagram,
            Err(error) => {
                return Err(PollError::Receive(error));
            },
        };
        let ghost bare = datagram@;
        datagram.extend_from_slice(&[0u8; 8]);
        assert(datagram@ == bare + padding());
        match decode(datagram.as_slice()) {
            Ok(packet) => {
                // A message need not be a reply, so that nobody listens is no reason to stop.
                let _ = self.recurse_send(packet);
                Ok(())
            },
            Err(error) => Err(PollError::Decode(error, datagram)),
        }
    }
}

/// Opens a channel, for a poller to hand messages to and for others to listen to, beside an
/// earlier one.
pub(crate) fn open_channel(earlier: &Option<ListenEnd>) -> (r: (Poller, ListenEnd))
    ensures
        *earlier matches Some(end) ==> r.1.channel() != end.channel(),
        r.0.channel() == r.1.channel(),
        r.0.log() == Seq::<Sent>::empty(),
        r.1.capacity() == CAPACITY,
{
    let (tx, _rx) = new_channel(CAPACITY, earlier);
    let end = ListenEnd::new(&tx);
    (Poller { tx }, end)
}

/// The poller's log is all that went through the one handle that it holds, and its channel is that
/// handle's.
proof fn law_poller_is_its_handle(poller: Poller)
    ensures
        poller.log() == sends(poller.tx),
        poller.channel() == sender_channel(poller.tx),
{
}

/// What a log gains in two steps is what it gains in the first and then in the second.
proof fn lemma_gained_join(before: Seq<Sent>, middle: Seq<Sent>, after: Seq<Sent>)
    requires
        before.is_prefix_of(middle),
        middle.is_prefix_of(after),
    ensures
        gained(before, after) == gained(before, middle) + gained(middle, after),
{
    assert(middle == after.subrange(0, middle.len() as int));
}

/// Two logs, one behind the other, come to what the first comes to, and to what the second comes to
/// where the first is a success.
proof fn lemma_verdict_join(
    first: Seq<Sent>,
    second: Seq<Sent>,
    one: Result<(), Error>,
    two: Result<(), Error>,
)
    requires
        verdict(first, one),
        verdict(second, two),
    ensures
        verdict(
            first + second,
            match one {
                Ok(_) => two,
                Err(_) => one,
            },
        ),
{
    let log = first + second;
    match one {
        Ok(_) => match two {
            Ok(_) => {},
            Err(Error::Unheard(error)) => {
                let k = choose|k: int|
                    {
                        &&& 0 <= k < second.len()
                        &&& all_heard(second.take(k))
                        &&& (#[trigger] second[k]).receivers == 0
                        &&& unsent(error) == second[k].message
                    };
                assert(log[first.len() + k] == second[k]);
                assert forall|i: int| 0 <= i < first.len() + k implies (#[trigger] log.take(
                    first.len() + k,
                )[i]).receivers > 0 by {
                    if i >= first.len() {
                        assert(log[i] == second.take(k)[i - first.len()]);
                    } else {
                        assert(log[i] == first[i]);
                    }
                }
            },
            Err(_) => {},
        },
        Err(Error::Unheard(error)) => {
            let k = choose|k: int|
                {
                    &&& 0 <= k < first.len()
                    &&& all_heard(first.take(k))
                    &&& (#[trigger] first[k]).receivers == 0
                    &&& unsent(error) == first[k].message
                };
            assert(log[k] == first[k]);
            assert(log.take(k) == first.take(k));
        },
        Err(_) => {},
    }
}

/// What was heard of two logs, one behind the other, is what was heard of the first and then of the
/// second.
pub proof fn lemma_heard_join(first: Seq<Sent>, second: Seq<Sent>)
    ensures
        heard_of(first + second) == heard_of(first) + heard_of(second),
    decreases second.len(),
{
    if second.len() == 0 {
        assert(first + second == first);
    } else {
        assert((first + second).drop_last() == first + second.drop_last());
        lemma_heard_join(first, second.drop_last());
    }
}

/// A log of which each message was heard holds no others.
proof fn lemma_all_heard(log: Seq<Sent>)
    requires
        all_heard(log),
    ensures
        heard_of(log) == handed(log),
    decreases log.len(),
{
    if log.len() > 0 {
        assert forall|i: int| 0 <= i < log.drop_last().len() implies (
        #[trigger] log.drop_last()[i]).receivers > 0 by {
            assert(log.drop_last()[i] == log[i]);
        }
        lemma_all_heard(log.drop_last());
        assert(log[log.len() - 1].receivers > 0);
        assert(handed(log) == handed(log.drop_last()).push(log.last().message));
    }
}

/// Of a log without receivers nothing was heard.
proof fn lemma_none_heard(log: Seq<Sent>)
    requires
        forall|i: int| 0 <= i < log.len() ==> (#[trigger] log[i]).receivers == 0,
    ensures
        heard_of(log) == Seq::<MessageView>::empty(),
    decreases log.len(),
{
    if log.len() > 0 {
        assert forall|i: int| 0 <= i < log.drop_last().len() implies (
        #[trigger] log.drop_last()[i]).receivers == 0 by {
            assert(log.drop_last()[i] == log[i]);
        }
        lemma_none_heard(log.drop_last());
        assert(log[log.len() - 1].receivers == 0);
    }
}

/// Messages reach the channel in the order in which they arrive: a run and the run after it are
/// delivered as the two would be in one.
pub proof fn law_deliveries_join(
    before: Seq<Sent>,
    middle: Seq<Sent>,
    after: Seq<Sent>,
    first: Seq<MessageView>,
    second: Seq<MessageView>,
)
    requires
        delivery(before, middle, first),
        delivery(middle, after, second),
    ensures
        delivery(before, after, first + second),
{
    lemma_gained_join(before, middle, after);
    assert(handed(gained(before, after)) == handed(gained(before, middle)) + handed(
        gained(middle, after),
    ));
    assert(before == after.subrange(0, before.len() as int));
}

/// Packets that are delivered one after the other through the poller's handle come to the delivery
/// of all their messages, each packet's behind those of the packet before it; none is dropped,
/// repeated or moved on that handle.
pub proof fn law_packets_are_delivered_in_order(logs: Seq<Seq<Sent>>, packets: Seq<PacketView>)
    requires
        logs.len() == packets.len() + 1,
        forall|i: int|
            0 <= i < packets.len() ==> delivery(
                logs[i],
                logs[i + 1],
                messages(#[trigger] packets[i]),
            ),
    ensures
        delivery(logs.first(), logs.last(), all_messages(packets)),
    decreases packets.len(),
{
    if packets.len() == 0 {
        assert(handed(gained(logs[0], logs[0])) == Seq::<MessageView>::empty());
    } else {
        let last = packets.len() - 1;
        assert forall|i: int| 0 <= i < last implies delivery(
            logs.drop_last()[i],
            logs.drop_last()[i + 1],
            messages(#[trigger] packets.drop_last()[i]),
        ) by {
            assert(packets.drop_last()[i] == packets[i]);
        }
        law_packets_are_delivered_in_order(logs.drop_last(), packets.drop_last());
        assert(delivery(logs[last], logs[last + 1], messages(packets[last])));
        law_deliveries_join(
            logs.first(),
            logs[last],
            logs.last(),
            all_messages(packets.drop_last()),
            messages(packets[last]),
        );
    }
}

/// Nothing that was heard is taken back or changed by what follows.
pub proof fn law_delivery_only_adds(before: Seq<Sent>, after: Seq<Sent>, run: Seq<MessageView>)
    requires
        delivery(before, after, run),
    ensures
        heard_of(after) == heard_of(before) + heard_of(gained(before, after)),
{
    assert(after == before + gained(before, after));
    lemma_heard_join(before, gained(before, after));
}

/// Where somebody listens throughout, exactly the messages of the run are heard, each of them once
/// and in their order.
pub proof fn law_all_is_heard_while_somebody_listens(
    before: Seq<Sent>,
    after: Seq<Sent>,
    run: Seq<MessageView>,
)
    requires
        delivery(before, after, run),
        all_heard(gained(before, after)),
    ensures
        heard_of(after) == heard_of(before) + run,
{
    law_delivery_only_adds(before, after, run);
    lemma_all_heard(gained(before, after));
}

/// While the number of receivers stays the same, a delivery fails if and only if there is none of
/// them and a message to deliver; nothing is heard then, and everything otherwise.
pub proof fn law_delivery_fails_without_receivers(
    before: Seq<Sent>,
    after: Seq<Sent>,
    run: Seq<MessageView>,
    outcome: Result<(), Error>,
    receivers: usize,
)
    requires
        delivery(before, after, run),
        verdict(gained(before, after), outcome),
        forall|i: int|
            before.len() <= i < after.len() ==> (#[trigger] after[i]).receivers == receivers,
    ensures
        outcome is Err <==> receivers == 0 && run.len() > 0,
        outcome is Err ==> heard_of(after) == heard_of(before),
        outcome is Ok ==> heard_of(after) == heard_of(before) + run,
{
    let log = gained(before, after);
    assert(log.len() == run.len());
    assert forall|i: int| 0 <= i < log.len() implies (#[trigger] log[i]).receivers == receivers by {
        assert(log[i] == after[before.len() + i]);
    }
    if outcome is Ok {
        assert(run.len() > 0 ==> log[0].receivers > 0);
        law_all_is_heard_while_somebody_listens(before, after, run);
    } else {
        lemma_none_heard(log);
        law_delivery_only_adds(before, after, run);
        assert(heard_of(before) + Seq::empty() == heard_of(before));
    }
}

/// How messages are grouped into bundles makes no difference to what is handed to the channel.
pub proof fn law_grouping_makes_no_difference(
    one: PacketView,
    other: PacketView,
    before_one: Seq<Sent>,
    after_one: Seq<Sent>,
    before_other: Seq<Sent>,
    after_other: Seq<Sent>,
)
    requires
        messages(one) == messages(other),
        delivery(before_one, after_one, messages(one)),
        delivery(before_other, after_other, messages(other)),
    ensures
        handed(gained(before_one, after_one)) == handed(gained(before_other, after_other)),
{
}

} // verus!
