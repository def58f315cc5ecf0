//! OSC packets, and reading the arguments of a message.

use crate::text::{decimal, decimal_text, signed, signed_text};
use vstd::prelude::*;

verus! {

/// One argument of an OSC message.
#[derive(Debug, PartialEq)]
pub enum Argument {
    /// A 32-bit integer.
    Int(i32),
    /// A 32-bit float, held by its bit pattern.
    Float(u32),
    /// A text.
    String(String),
    /// A run of raw bytes.
    Blob(Vec<u8>),
    /// An argument of any other type, carried through unread.
    Other(rosc::OscType),
}

/// An address and the arguments that go to it.
#[derive(Debug, PartialEq)]
pub struct Message {
    pub addr: String,
    pub args: Vec<Argument>,
}

/// A message, or a bundle of further packets.
#[derive(Debug, PartialEq)]
pub enum Packet {
    Message(Message),
    Bundle(Vec<Packet>),
}

/// What an argument holds.
pub enum ArgView {
    Int(i32),
    Float(u32),
    Text(Seq<char>),
    Blob(Seq<u8>),
    Other(rosc::OscType),
}

/// What a message holds.
pub struct MessageView {
    pub addr: Seq<char>,
    pub args: Seq<ArgView>,
}

/// What a packet holds.
pub enum PacketView {
    Message(MessageView),
    Bundle(Seq<PacketView>),
}

impl View for Argument {
    type V = ArgView;

    open spec fn view(&self) -> ArgView {
        match *self {
            Argument::Int(value) => ArgView::Int(value),
            Argument::Float(bits) => ArgView::Float(bits),
            Argument::String(text) => ArgView::Text(text@),
            Argument::Blob(bytes) => ArgView::Blob(bytes@),
            Argument::Other(other) => ArgView::Other(other),
        }
    }
}

/// What a list of arguments holds.
pub open spec fn args_view(args: Seq<Argument>) -> Seq<ArgView> {
    args.map_values(|arg: Argument| arg@)
}

impl View for Message {
    type V = MessageView;

    open spec fn view(&self) -> MessageView {
        MessageView { addr: self.addr@, args: args_view(self.args@) }
    }
}

impl Clone for Argument {
    fn clone(&self) -> (copy: Self)
        ensures
            copy@ == self@,
    {
        match self {
            Argument::Int(value) => Argument::Int(*value),
            Argument::Float(bits) => Argument::Float(*bits),
            Argument::String(text) => Argument::String(text.clone()),
            Argument::Blob(bytes) => Argument::Blob(bytes.clone()),
            Argument::Other(other) => Argument::Other(other.clone()),
        }
    }
}

impl Clone for Message {
    fn clone(&self) -> (copy: Self)
        ensures
            copy@ == self@,
    {
        let mut args: Vec<Argument> = Vec::new();
        for arg in iter: &self.args
            invariant
                args@.len() == iter.index(),
                forall|i: int| 0 <= i < args@.len() ==> args@[i]@ == self.args@[i]@,
        {
            args.push(arg.clone());
        }
        assert(args_view(args@) == args_view(self.args@));
        Message { addr: self.addr.clone(), args }
    }
}

/// What a packet holds, level by level.
pub open spec fn packet_view(packet: Packet) -> PacketView
    decreases packet,
{
    match packet {
        Packet::Message(message) => PacketView::Message(message@),
        Packet::Bundle(content) => PacketView::Bundle(packets_view(content@)),
    }
}

/// What a list of packets holds, level by level.
pub open spec fn packets_view(packets: Seq<Packet>) -> Seq<PacketView>
    decreases packets,
{
    if packets.len() == 0 {
        Seq::empty()
    } else {
        packets_view(packets.drop_last()).push(packet_view(packets.last()))
    }
}

impl View for Packet {
    type V = PacketView;

    open spec fn view(&self) -> PacketView {
        packet_view(*self)
    }
}

/// The messages of a packet in the order in which they stand in it, whatever the nesting.
pub open spec fn messages(packet: PacketView) -> Seq<MessageView>
    decreases packet,
{
    match packet {
        PacketView::Message(message) => seq![message],
        PacketView::Bundle(content) => all_messages(content),
    }
}

/// The messages of a list of packets, one packet after the other.
pub open spec fn all_messages(packets: Seq<PacketView>) -> Seq<MessageView>
    decreases packets,
{
    if packets.len() == 0 {
        Seq::empty()
    } else {
        all_messages(packets.drop_last()) + messages(packets.last())
    }
}

/// Each packet of a list is viewed on its own.
pub proof fn lemma_packets_view(packets: Seq<Packet>)
    ensures
        packets_view(packets).len() == packets.len(),
        forall|i: int|
            0 <= i < packets.len() ==> #[trigger] packets_view(packets)[i] == packets[i]@,
    decreases packets.len(),
{
    if packets.len() > 0 {
        lemma_packets_view(packets.drop_last());
    }
}

/// A list of packets with one more behind it holds that packet's messages last.
pub proof fn lemma_messages_push(packets: Seq<PacketView>, packet: PacketView)
    ensures
        all_messages(packets.push(packet)) == all_messages(packets) + messages(packet),
{
    assert(packets.push(packet).drop_last() == packets);
}

/// Bundles may be joined: the messages of two lists of packets, one behind the other, are those
/// of the first list followed by those of the second.
pub proof fn law_messages_join(first: Seq<PacketView>, second: Seq<PacketView>)
    ensures
        messages(PacketView::Bundle(first + second)) == messages(PacketView::Bundle(first))
            + messages(PacketView::Bundle(second)),
    decreases second.len(),
{
    if second.len() == 0 {
        assert(first + second == first);
        assert(all_messages(second) == Seq::<MessageView>::empty());
    } else {
        assert((first + second).drop_last() == first + second.drop_last());
        law_messages_join(first, second.drop_last());
        assert(all_messages(first + second) == all_messages(first + second.drop_last()) + messages(
            second.last(),
        ));
    }
}

/// Putting a packet into a bundle of its own changes nothing about its messages.
pub proof fn law_messages_wrap(packet: PacketView)
    ensures
        messages(PacketView::Bundle(seq![packet])) == messages(packet),
{
    lemma_messages_push(Seq::empty(), packet);
    assert(Seq::empty().push(packet) == seq![packet]);
    assert(all_messages(Seq::empty()) + messages(packet) == messages(packet));
}

/// Why a message cannot be read as the reply that was asked for.
#[derive(Debug, PartialEq)]
pub enum ReplyError<'a> {
    /// The message has no argument in this position.
    MissingArgument(usize),
    /// This argument should be a text.
    ExpectedString(&'a Argument),
    /// This argument should be a float.
    ExpectedFloat(&'a Argument),
    /// This argument should be an integer.
    ExpectedInt(&'a Argument),
    /// The first argument should be there and be a blob.
    ExpectedBlob,
    /// No preamp has this index.
    InvalidHeadampIndex(i32),
    /// The blob is too short to hold the number of its floats.
    MissingFloatCount,
    /// The blob announces fewer floats than it takes to fill this position.
    MissingFloat(usize),
    /// The blob ends inside a float that it announced.
    TruncatedFloat,
}

/// What a reply's error says, up to where the argument or the bytes that it is about are shown.
pub open spec fn error_text(error: ReplyError<'_>) -> Seq<char> {
    match error {
        ReplyError::MissingArgument(index) => "Expected arg in position "@ + decimal(index as nat),
        ReplyError::ExpectedString(_) => "Expected string"@,
        // Both kinds of number are asked for by this one name.
        ReplyError::ExpectedFloat(_) | ReplyError::ExpectedInt(_) => "Expected float"@,
        ReplyError::ExpectedBlob => "Expected blob in first argument of /meters reply"@,
        ReplyError::InvalidHeadampIndex(index) => "Invalid headamp index: "@ + signed(index as int),
        ReplyError::MissingFloatCount => "Failed to get num floats"@,
        ReplyError::MissingFloat(index) => "Could not get index "@ + decimal(index as nat)
            + " from values"@,
        ReplyError::TruncatedFloat => "Failed to parse float"@,
    }
}

impl<'a> ReplyError<'a> {
    /// What the error says, up to where the argument or the bytes that it is about are shown.
    pub fn text(&self) -> (text: String)
        ensures
            text@ == error_text(*self),
    {
        match self {
            ReplyError::MissingArgument(index) => {
                let mut text = "Expected arg in position ".to_owned();
                text.append(decimal_text(*index).as_str());
                text
            },
            ReplyError::ExpectedString(_) => "Expected string".to_owned(),
            ReplyError::ExpectedFloat(_) => "Expected float".to_owned(),
            ReplyError::ExpectedInt(_) => "Expected float".to_owned(),
            ReplyError::ExpectedBlob => {
                "Expected blob in first argument of /meters reply".to_owned()
            },
            ReplyError::InvalidHeadampIndex(index) => {
                let mut text = "Invalid headamp index: ".to_owned();
                text.append(signed_text(*index).as_str());
                text
            },
            ReplyError::MissingFloatCount => "Failed to get num floats".to_owned(),
            ReplyError::MissingFloat(index) => {
                let mut text = "Could not get index ".to_owned();
                text.append(decimal_text(*index).as_str());
                text.append(" from values");
                text
            },
            ReplyError::TruncatedFloat => "Failed to parse float".to_owned(),
        }
    }
}

/// The argument in a position of a message.
pub open spec fn arg_at<'a>(message: &'a Message, index: nat) -> Result<
    &'a Argument,
    ReplyError<'a>,
> {
    if index < message.args@.len() {
        Ok(&message.args@[index as int])
    } else {
        Err(ReplyError::MissingArgument(index as usize))
    }
}

/// Returns the argument in a position of a message.
pub fn arg<'a>(message: &'a Message, index: usize) -> (r: Result<&'a Argument, ReplyError<'a>>)
    ensures
        r == arg_at(message, index as nat),
{
    if index < message.args.len() {
        Ok(&message.args[index])
    } else {
        Err(ReplyError::MissingArgument(index))
    }
}

/// Returns the text of an argument that is one.
pub fn as_str_ref<'a>(arg: &'a Argument) -> (r: Result<&'a str, ReplyError<'a>>)
    ensures
        match *arg {
            Argument::String(text) => r matches Ok(s) && s@ == text@,
            _ => r == Err::<&str, ReplyError>(ReplyError::ExpectedString(arg)),
        },
{
    match arg {
        Argument::String(text) => Ok(text.as_str()),
        _ => Err(ReplyError::ExpectedString(arg)),
    }
}

/// Returns the bit pattern of an argument that is a float.
pub fn as_float<'a>(arg: &'a Argument) -> (r: Result<u32, ReplyError<'a>>)
    ensures
        r == (match *arg {
            Argument::Float(bits) => Ok::<u32, ReplyError>(bits),
            _ => Err(ReplyError::ExpectedFloat(arg)),
        }),
{
    match arg {
        Argument::Float(bits) => Ok(*bits),
        _ => Err(ReplyError::ExpectedFloat(arg)),
    }
}

/// Returns the value of an argument that is an integer.
pub fn as_i32<'a>(arg: &'a Argument) -> (r: Result<i32, ReplyError<'a>>)
    ensures
        r == (match *arg {
            Argument::Int(value) => Ok::<i32, ReplyError>(value),
            _ => Err(ReplyError::ExpectedInt(arg)),
        }),
{
    match arg {
        Argument::Int(value) => Ok(*value),
        _ => Err(ReplyError::ExpectedInt(arg)),
    }
}

/// Returns the text in a position of a message.
pub fn arg_as_str<'a>(message: &'a Message, index: usize) -> (r: Result<&'a str, ReplyError<'a>>)
    ensures
        match arg_at(message, index as nat) {
            Ok(Argument::String(text)) => r matches Ok(s) && s@ == text@,
            Ok(other) => r == Err::<&str, ReplyError>(ReplyError::ExpectedString(other)),
            Err(error) => r == Err::<&str, ReplyError>(error),
        },
{
    match arg(message, index) {
        Ok(value) => as_str_ref(value),
        Err(error) => Err(error),
    }
}

} // verus!
