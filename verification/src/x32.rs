//! The console: what to ask it, and what to listen for.

use crate::average::{average, average_at, AverageStep};
use crate::exchange::{wait_step, Exchange, Listening, Waiting};
use crate::feed::{open_channel, padding, receiver_channel, Error, Poller, Sent, CAPACITY};
use crate::listen::ListenEnd;
use crate::meters::{float_blob, law_meters_read_back, meters_in, METERS};
use crate::osc::{ArgView, Argument, Message, MessageView, PacketView, ReplyError};
use crate::reply::gain_in;
use crate::text::{
    decimal, decimal_text, law_padded_reads_back, lemma_decimal_digits, lemma_padded_digits, padded,
};
use crate::wire::{carries, decoding, encode_message, ends_in_blob, readable, unbroken};
use vstd::prelude::*;

pub use crate::index::{ChannelIndex, HeadampIndex};
pub use crate::reply::Info;

verus! {

/// A console, reached through a sender, and the channel on which its messages arrive once they are
/// received.
pub struct X32<S> {
    sender: S,
    receive_channel: Option<ListenEnd>,
}

/// A message with no arguments.
pub open spec fn command_message(addr: Seq<char>) -> MessageView {
    MessageView { addr, args: Seq::empty() }
}

/// The address of a preamp's gain.
pub open spec fn gain_address(index: HeadampIndex) -> Seq<char> {
    "/headamp/"@ + padded(index.number() as nat, 3) + "/gain"@
}

/// The message that sets a preamp's gain, given as a bit pattern.
pub open spec fn gain_message(index: HeadampIndex, gain: u32) -> MessageView {
    MessageView { addr: gain_address(index), args: seq![ArgView::Float(gain)] }
}

/// The address of the preamp that feeds a channel.
pub open spec fn source_address(index: ChannelIndex) -> Seq<char> {
    "/-ha/"@ + padded(index.number() as nat, 2) + "/index"@
}

/// The address of a bank of meters.
pub open spec fn meters_address(index: u8) -> Seq<char> {
    "/meters/"@ + decimal(index as nat)
}

/// The message that asks for a bank of meters.
pub open spec fn meters_message(index: u8) -> MessageView {
    MessageView {
        addr: "/meters"@,
        args: seq![ArgView::Text(meters_address(index)), ArgView::Int(0)],
    }
}

/// The message that a bank of meters is reported with, the readings given as bit patterns.
pub open spec fn meters_reply(index: u8, floats: Seq<u32>) -> MessageView {
    MessageView { addr: meters_address(index), args: seq![ArgView::Blob(float_blob(floats))] }
}

/// How a request comes out: refused where nothing receives yet, and otherwise an exchange that
/// listens on the channel, sends the message and waits for the address.
pub open spec fn asked(
    channel: Option<int>,
    message: MessageView,
    expect: Seq<char>,
    r: Result<Exchange, Error>,
) -> bool {
    match channel {
        Some(channel) => {
            &&& r matches Ok(exchange)
            &&& carries(exchange.request(), message)
            &&& exchange.channel() == channel
            &&& exchange.expect() == expect
        },
        None => r == Err::<Exchange, Error>(Error::NotReceiving),
    }
}

impl<S> X32<S> {
    /// What the console is reached through.
    pub closed spec fn transport(&self) -> S {
        self.sender
    }

    /// The channel on which messages arrive.
    pub closed spec fn channel(&self) -> Option<int> {
        match self.receive_channel {
            Some(end) => Some(end.channel()),
            None => None,
        }
    }

    /// The capacity of the channel on which messages arrive.
    pub closed spec fn capacity(&self) -> Option<nat> {
        match self.receive_channel {
            Some(end) => Some(end.capacity()),
            None => None,
        }
    }

    /// A console that is reached through `sender` and not listened to yet.
    pub fn new(sender: S) -> (r: Self)
        ensures
            r.transport() == sender,
            r.channel() is None,
            r.capacity() is None,
    {
        X32 { sender, receive_channel: None }
    }

    /// What the console is reached through.
    pub fn sender(&self) -> (r: &S)
        ensures
            *r == self.transport(),
    {
        &self.sender
    }

    /// Starts to listen: opens the channel on which messages arrive, in place of an earlier one,
    /// and gives the poller that feeds it. The poller holds its own end of the channel, so it can
    /// run while the console is asked for things.
    pub fn poll_receive(&mut self) -> (poller: Poller)
        ensures
            final(self).transport() == old(self).transport(),
            final(self).channel() == Some(poller.channel()),
            final(self).channel() != old(self).channel(),
            final(self).capacity() == Some(CAPACITY as nat),
            poller.log() == Seq::<Sent>::empty(),
    {
        let (poller, end) = open_channel(&self.receive_channel);
        self.receive_channel = Some(end);
        poller
    }

    /// Subscribes to the channel, to wait for a message to `expect`. What arrives from now on is
    /// heard, so a request is sent after this and not before.
    pub fn start_recv_msg(&self, expect: &str) -> (r: Result<Listening, Error>)
        ensures
            match self.channel() {
                Some(channel) => {
                    &&& r matches Ok(listening)
                    &&& receiver_channel(listening.rx) == channel
                    &&& listening.waiting.expect() == expect@
                },
                None => r == Err::<Listening, Error>(Error::NotReceiving),
            },
    {
        match &self.receive_channel {
            Some(end) => Ok(Listening { rx: end.listen(), waiting: Waiting::new(expect) }),
            None => Err(Error::NotReceiving),
        }
    }

    /// Asks with a message that has no arguments; the reply has the same address.
    pub fn send_recv_command(&self, command: &str) -> (r: Result<Exchange, Error>)
        ensures
            asked(self.channel(), command_message(command@), command@, r),
    {
        let message = Message { addr: command.to_owned(), args: Vec::new() };
        assert(message@.args == command_message(command@).args);
        self.send_recv_msg(message, command)
    }

    /// Asks with a message and waits for a reply to `expect`.
    pub fn send_recv_msg(&self, message: Message, expect: &str) -> (r: Result<Exchange, Error>)
        ensures
            asked(self.channel(), message@, expect@, r),
    {
        let listening = match self.start_recv_msg(expect) {
            Ok(listening) => listening,
            Err(error) => {
                return Err(error);
            },
        };
        match self.send_msg(message) {
            Ok(request) => Ok(Exchange::new(request, listening.rx, listening.waiting)),
            Err(error) => Err(error),
        }
    }

    /// The datagram for a message, to be sent with no reply expected.
    pub fn send_msg(&self, message: Message) -> (r: Result<Vec<u8>, Error>)
        ensures
            r matches Ok(request) && carries(request@, message@),
    {
        match encode_message(message) {
            Ok(request) => Ok(request),
            Err(error) => Err(Error::Encode(error)),
        }
    }

    /// Asks the console about itself.
    pub fn info(&self) -> (r: Result<Exchange, Error>)
        ensures
            asked(self.channel(), command_message("/info"@), "/info"@, r),
    {
        self.send_recv_command("/info")
    }

    /// Asks for a preamp's gain.
    pub fn headamp_gain(&self, index: HeadampIndex) -> (r: Result<Exchange, Error>)
        ensures
            asked(self.channel(), command_message(gain_address(index)), gain_address(index), r),
    {
        let addr = gain_address_text(index);
        self.send_recv_command(addr.as_str())
    }

    /// The datagram that sets a preamp's gain, given as a bit pattern.
    pub fn set_headamp_gain(&self, index: HeadampIndex, gain: u32) -> (r: Result<Vec<u8>, Error>)
        ensures
            r matches Ok(request) && carries(request@, gain_message(index, gain)),
    {
        let mut args: Vec<Argument> = Vec::new();
        args.push(Argument::Float(gain));
        let message = Message { addr: gain_address_text(index), args };
        assert(message@.args == gain_message(index, gain).args);
        self.send_msg(message)
    }

    /// Asks for the preamp that feeds a channel.
    pub fn channel_index_to_headamp_index(&self, channel_index: ChannelIndex) -> (r: Result<
        Exchange,
        Error,
    >)
        ensures
            asked(
                self.channel(),
                command_message(source_address(channel_index)),
                source_address(channel_index),
                r,
            ),
    {
        let mut addr = "/-ha/".to_owned();
        addr.append(channel_index.to_string().as_str());
        addr.append("/index");
        self.send_recv_command(addr.as_str())
    }

    /// Starts an average over a number of meter readings.
    pub fn meters_averaged(&self, frames: usize) -> (step: AverageStep)
        ensures
            average_at(frames as nat, 0, step),
    {
        average(frames)
    }

    /// The message that asks for a bank of meters.
    pub fn meters_msg(index: u8) -> (message: Message)
        ensures
            message@ == meters_message(index),
    {
        let mut bank = "/meters/".to_owned();
        bank.append(decimal_text(index as usize).as_str());
        let mut args: Vec<Argument> = Vec::new();
        args.push(Argument::String(bank));
        args.push(Argument::Int(0));
        let message = Message { addr: "/meters".to_owned(), args };
        assert(message@.args == meters_message(index).args);
        message
    }

    /// Asks for the meters of bank 1.
    pub fn meters(&self) -> (r: Result<Exchange, Error>)
        ensures
            asked(self.channel(), meters_message(1), meters_address(1), r),
    {
        proof {
            reveal_strlit("/meters/1");
            reveal_strlit("/meters/");
            assert("/meters/1"@ == meters_address(1));
        }
        self.send_recv_msg(Self::meters_msg(1), "/meters/1")
    }
}

/// Writes the address of a preamp's gain.
fn gain_address_text(index: HeadampIndex) -> (addr: String)
    ensures
        addr@ == gain_address(index),
{
    let mut addr = "/headamp/".to_owned();
    addr.append(index.to_string().as_str());
    addr.append("/gain");
    addr
}

/// What stands between the same beginning and the same end is the same where the whole is.
proof fn lemma_same_middle(begin: Seq<char>, a: Seq<char>, b: Seq<char>, end: Seq<char>)
    requires
        begin + a + end == begin + b + end,
    ensures
        a == b,
{
    let whole = begin + a + end;
    assert(whole.len() == (begin + a).len() + end.len());
    assert(whole.len() == (begin + b).len() + end.len());
    assert(a == whole.subrange(begin.len() as int, (begin.len() + a.len()) as int));
    assert(b == whole.subrange(begin.len() as int, (begin.len() + b.len()) as int));
}

/// Different preamps have different gain addresses, so a reply about one is never taken for a reply
/// about another.
pub proof fn law_gain_addresses_differ(a: HeadampIndex, b: HeadampIndex)
    requires
        a.number() != b.number(),
    ensures
        gain_address(a) != gain_address(b),
{
    if gain_address(a) == gain_address(b) {
        lemma_same_middle(
            "/headamp/"@,
            padded(a.number() as nat, 3),
            padded(b.number() as nat, 3),
            "/gain"@,
        );
        law_padded_reads_back(a.number() as nat, 3);
        law_padded_reads_back(b.number() as nat, 3);
    }
}

/// Different channels have different source addresses, so a reply about one is never taken for a
/// reply about another.
pub proof fn law_source_addresses_differ(a: ChannelIndex, b: ChannelIndex)
    requires
        a.number() != b.number(),
    ensures
        source_address(a) != source_address(b),
{
    if source_address(a) == source_address(b) {
        lemma_same_middle(
            "/-ha/"@,
            padded(a.number() as nat, 2),
            padded(b.number() as nat, 2),
            "/index"@,
        );
        law_padded_reads_back(a.number() as nat, 2);
        law_padded_reads_back(b.number() as nat, 2);
    }
}

/// The address of a preamp's gain is unbroken.
proof fn lemma_gain_address_unbroken(index: HeadampIndex)
    ensures
        gain_address(index).len() > 0,
        gain_address(index)[0] == '/',
        unbroken(gain_address(index)),
{
    reveal_strlit("/headamp/");
    reveal_strlit("/gain");
    lemma_padded_digits(index.number() as nat, 3);
}

/// Every message that the console is asked or told things with comes through the wire format as it
/// is, so it reads back from its datagram.
pub proof fn law_requests_are_readable(
    headamp: HeadampIndex,
    gain: u32,
    channel: ChannelIndex,
    bank: u8,
)
    ensures
        readable(command_message("/info"@)),
        readable(command_message(gain_address(headamp))),
        readable(gain_message(headamp, gain)),
        readable(command_message(source_address(channel))),
        readable(meters_message(bank)),
{
    reveal_strlit("/info");
    reveal_strlit("/-ha/");
    reveal_strlit("/index");
    reveal_strlit("/meters");
    reveal_strlit("/meters/");
    lemma_gain_address_unbroken(headamp);
    lemma_padded_digits(channel.number() as nat, 2);
    lemma_decimal_digits(bank as nat);
    assert(unbroken(source_address(channel)));
    assert(unbroken(meters_address(bank)));
}

/// A command that the console sends back as it came is decoded to the command itself, and is the
/// reply that the command waits for.
pub proof fn law_echoed_command_is_the_reply<E>(datagram: Seq<u8>, addr: Seq<char>)
    requires
        carries(datagram, command_message(addr)),
        readable(command_message(addr)),
    ensures
        decoding(datagram + padding()) == Ok::<PacketView, rosc::OscError>(
            PacketView::Message(command_message(addr)),
        ),
        wait_step(addr, Ok::<MessageView, E>(command_message(addr))) == Some(
            Ok::<MessageView, E>(command_message(addr)),
        ),
{
}

/// The datagram that sets a preamp's gain, should it come back, is decoded to a reply to the
/// request for that gain, and the gain reads back as it was set.
pub proof fn law_gain_set_reads_back<E>(
    datagram: Seq<u8>,
    index: HeadampIndex,
    gain: u32,
    message: &Message,
)
    requires
        carries(datagram, gain_message(index, gain)),
        message@ == gain_message(index, gain),
    ensures
        decoding(datagram + padding()) == Ok::<PacketView, rosc::OscError>(
            PacketView::Message(message@),
        ),
        wait_step(gain_address(index), Ok::<MessageView, E>(message@)) == Some(
            Ok::<MessageView, E>(message@),
        ),
        gain_in(message) == Ok::<u32, ReplyError>(gain),
{
    lemma_gain_address_unbroken(index);
    assert(readable(gain_message(index, gain)));
    assert(message@.args[0] == ArgView::Float(gain));
    assert(message@.args.len() == 1);
    assert(message.args@[0]@ == ArgView::Float(gain));
}

/// Meter readings that arrive in a datagram of their own are decoded, thanks to the padding, to the
/// reply that the request for meters waits for, and read back as they were sent.
pub proof fn law_meters_reply_reads_back<E>(
    datagram: Seq<u8>,
    floats: Seq<u32>,
    message: &Message,
)
    requires
        METERS <= floats.len(),
        4 + 4 * floats.len() <= u32::MAX,
        carries(datagram, meters_reply(1, floats)),
        message@ == meters_reply(1, floats),
    ensures
        decoding(datagram + padding()) == Ok::<PacketView, rosc::OscError>(
            PacketView::Message(message@),
        ),
        wait_step(meters_address(1), Ok::<MessageView, E>(message@)) == Some(
            Ok::<MessageView, E>(message@),
        ),
        message.args@.len() == 1,
        message.args@[0] matches Argument::Blob(blob) && meters_in(blob@) == Ok::<
            Seq<u32>,
            ReplyError,
        >(floats.take(METERS as int)),
{
    reveal_strlit("/meters/");
    lemma_decimal_digits(1);
    assert(unbroken(meters_address(1)));
    assert(ends_in_blob(meters_reply(1, floats)));
    assert(message@.args[0] == ArgView::Blob(float_blob(floats)));
    assert(message@.args.len() == 1);
    assert(message.args@[0]@ == ArgView::Blob(float_blob(floats)));
    law_meters_read_back(floats, Seq::empty());
    assert(float_blob(floats) + Seq::empty() == float_blob(floats));
}

} // verus!
