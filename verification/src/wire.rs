//! The OSC wire format, as the `rosc` crate reads and writes it.

use crate::osc::{
    args_view, lemma_packets_view, packets_view, ArgView, Argument, Message, MessageView, Packet,
    PacketView,
};
use vstd::prelude::*;

verus! {

/// An argument as `rosc` holds it.
#[verifier::external_type_specification]
#[verifier::external_body]
pub struct ExOscType(rosc::OscType);

/// A packet as `rosc` holds it.
#[verifier::external_type_specification]
#[verifier::external_body]
pub struct ExOscPacket(rosc::OscPacket);

/// What `rosc` finds wrong with a packet.
#[verifier::external_type_specification]
#[verifier::external_body]
pub struct ExOscError(rosc::OscError);

/// The clone that `rosc::OscType` derives: a copy of the whole value.
pub assume_specification[ <rosc::OscType as Clone>::clone ](value: &rosc::OscType) -> (copy:
    rosc::OscType)
    ensures
        copy == *value,
;

/// What an argument that `rosc` holds stands for.
pub uninterp spec fn arg_model(arg: rosc::OscType) -> ArgView;

/// What a packet that `rosc` holds stands for, its time tags left aside.
pub uninterp spec fn packet_model(packet: rosc::OscPacket) -> PacketView;

/// What `rosc::decoder::decode_udp` makes of a datagram.
pub uninterp spec fn decoding(datagram: Seq<u8>) -> Result<PacketView, rosc::OscError>;

/// The bytes that `rosc::encoder::encode` makes of a message.
pub uninterp spec fn encoding(addr: Seq<char>, args: Seq<ArgView>) -> Seq<u8>;

/// What a list of arguments that `rosc` holds stands for.
pub open spec fn arg_models(args: Seq<rosc::OscType>) -> Seq<ArgView> {
    args.map_values(|arg: rosc::OscType| arg_model(arg))
}

/// What a list of packets that `rosc` holds stands for.
pub open spec fn packet_models(packets: Seq<rosc::OscPacket>) -> Seq<PacketView> {
    packets.map_values(|packet: rosc::OscPacket| packet_model(packet))
}

/// What an argument stands for once it is handed to `rosc`: an unread argument stands for
/// whatever `rosc` holds in it.
pub open spec fn outgoing(arg: ArgView) -> ArgView {
    match arg {
        ArgView::Other(other) => arg_model(other),
        _ => arg,
    }
}

/// The bytes that go out for a message.
pub open spec fn wire_bytes(message: MessageView) -> Seq<u8> {
    encoding(message.addr, message.args.map_values(|arg: ArgView| outgoing(arg)))
}

/// Whether a text holds no zero character, which would end it on the wire.
pub open spec fn unbroken(text: Seq<char>) -> bool {
    forall|i: int| 0 <= i < text.len() ==> #[trigger] text[i] != '\0'
}

/// Whether an argument comes through the wire format as it is: a number or an unbroken text.
pub open spec fn plain(arg: ArgView) -> bool {
    match arg {
        ArgView::Int(_) => true,
        ArgView::Float(_) => true,
        ArgView::Text(text) => unbroken(text),
        _ => false,
    }
}

/// Whether an address comes through the wire format as the address of a message.
pub open spec fn plain_address(addr: Seq<char>) -> bool {
    addr.len() > 0 && addr[0] == '/' && unbroken(addr)
}

/// Whether a message comes through the wire format as it is.
pub open spec fn readable(message: MessageView) -> bool {
    &&& plain_address(message.addr)
    &&& forall|i: int| 0 <= i < message.args.len() ==> plain(#[trigger] message.args[i])
}

/// Whether a message ends in a blob and is readable up to there. Behind a blob that fills its last
/// four bytes the decoder takes four bytes more, which a datagram does not have of itself.
pub open spec fn ends_in_blob(message: MessageView) -> bool {
    &&& plain_address(message.addr)
    &&& message.args.len() > 0
    &&& message.args.last() matches ArgView::Blob(bytes) && bytes.len() <= u32::MAX
    &&& forall|i: int| 0 <= i < message.args.len() - 1 ==> plain(#[trigger] message.args[i])
}

/// Whether some bytes are decoded to a message, whatever follows them in the datagram, as long as
/// it is no shorter than `least`.
pub open spec fn reads_back(bytes: Seq<u8>, message: MessageView, least: nat) -> bool {
    forall|tail: Seq<u8>|
        tail.len() >= least ==> #[trigger] decoding(bytes + tail) == Ok::<
            PacketView,
            rosc::OscError,
        >(PacketView::Message(message))
}

/// Whether a message reads back from its bytes, as far as the wire format brings it through: as it
/// is, or with four bytes or more behind it where it ends in a blob.
pub open spec fn comes_through(bytes: Seq<u8>, message: MessageView) -> bool {
    &&& readable(message) ==> reads_back(bytes, message, 0)
    &&& ends_in_blob(message) ==> reads_back(bytes, message, 4)
}

/// Whether a datagram carries a message: it holds the message's bytes, and a message that can come
/// through reads back from it.
pub open spec fn carries(datagram: Seq<u8>, message: MessageView) -> bool {
    &&& datagram == wire_bytes(message)
    &&& comes_through(datagram, message)
}

/// A packet of `rosc`, opened by one level.
enum Opened {
    Message(String, Vec<rosc::OscType>),
    Bundle(Vec<rosc::OscPacket>),
}

/// Opens the enum `rosc::OscType`. The argument's model is by definition what comes out: the
/// value of an integer, the bit pattern of a float, a text, a blob, or else the argument itself.
#[verifier::external_body]
fn open_arg(arg: rosc::OscType) -> (opened: Argument)
    ensures
        opened@ == arg_model(arg),
        opened matches Argument::Other(other) ==> other == arg,
{
    match arg {
        rosc::OscType::Int(value) => Argument::Int(value),
        rosc::OscType::Float(value) => Argument::Float(value.to_bits()),
        rosc::OscType::String(text) => Argument::String(text),
        rosc::OscType::Blob(bytes) => Argument::Blob(bytes),
        other => Argument::Other(other),
    }
}

/// Builds a `rosc::OscType`, variant by variant: the inverse of opening one. A bit pattern becomes
/// a float through `nom::number::complete::le_f32`, which reads the four bytes of the pattern in
/// little-endian order and cannot fail on four bytes.
#[verifier::external_body]
fn close_arg(arg: Argument) -> (closed: rosc::OscType)
    ensures
        arg_model(closed) == outgoing(arg@),
{
    match arg {
        Argument::Int(value) => rosc::OscType::Int(value),
        Argument::Float(bits) => rosc::OscType::Float(
            nom::number::complete::le_f32::<&[u8], ()>(&bits.to_le_bytes())
                .map(|parsed| parsed.1)
                .unwrap_or_default(),
        ),
        Argument::String(text) => rosc::OscType::String(text),
        Argument::Blob(bytes) => rosc::OscType::Blob(bytes),
        Argument::Other(other) => other,
    }
}

/// Opens the enum `rosc::OscPacket` by one level. A message comes apart into its address and its
/// arguments, a bundle into its packets; the packet's model is made of theirs.
#[verifier::external_body]
fn open_level(packet: rosc::OscPacket) -> (opened: Opened)
    ensures
        match opened {
            Opened::Message(addr, args) => packet_model(packet) == PacketView::Message(
                MessageView { addr: addr@, args: arg_models(args@) },
            ),
            Opened::Bundle(content) => packet_model(packet) == PacketView::Bundle(
                packet_models(content@),
            ),
        },
{
    match packet {
        rosc::OscPacket::Message(message) => Opened::Message(message.addr, message.args),
        rosc::OscPacket::Bundle(bundle) => Opened::Bundle(bundle.content),
    }
}

/// Calls `rosc::decoder::decode_udp` and keeps the packet without the bytes behind it. The
/// outcome is the decoding of the datagram, an error included.
#[verifier::external_body]
fn decode_udp(datagram: &[u8]) -> (r: Result<rosc::OscPacket, rosc::OscError>)
    ensures
        decoding(datagram@) == (match r {
            Ok(packet) => Ok::<PacketView, rosc::OscError>(packet_model(packet)),
            Err(error) => Err(error),
        }),
{
    rosc::decoder::decode_udp(datagram).map(|decoded| decoded.1)
}

/// Calls `rosc::encoder::encode` on a message. It always succeeds: the encoder writes into a
/// vector, which takes every write. `rosc::decoder::decode_udp` undoes it for a message that is
/// readable: behind the address, the type tags and each text the encoder writes the one to four
/// zeros, up to a multiple of four bytes, that the decoder takes there, and integers and floats are
/// big-endian in both. Behind a blob the encoder writes none to three zeros, and the decoder takes
/// one to four bytes, so a message that ends in a blob reads back where four bytes or more follow.
/// Of other messages nothing is said.
#[verifier::external_body]
fn encode(addr: String, args: Vec<rosc::OscType>) -> (r: Result<Vec<u8>, rosc::OscError>)
    ensures
        match r {
            Ok(bytes) => {
                let message = MessageView { addr: addr@, args: arg_models(args@) };
                &&& bytes@ == encoding(addr@, arg_models(args@))
                &&& comes_through(bytes@, message)
            },
            Err(_) => false,
        },
{
    rosc::encoder::encode(&rosc::OscPacket::Message(rosc::OscMessage { addr, args }))
}

/// Opens a list of arguments.
fn open_args(args: Vec<rosc::OscType>) -> (opened: Vec<Argument>)
    ensures
        args_view(opened@) == arg_models(args@),
{
    let mut opened: Vec<Argument> = Vec::new();
    for arg in iter: args
        invariant
            opened@.len() == iter.index(),
            iter.seq() == args@,
            forall|i: int| 0 <= i < opened@.len() ==> opened@[i]@ == arg_model(iter.seq()[i]),
    {
        opened.push(open_arg(arg));
    }
    assert(args_view(opened@) == arg_models(args@));
    opened
}

/// Opens a packet on every level.
fn open_packet(packet: rosc::OscPacket) -> (opened: Packet)
    ensures
        opened@ == packet_model(packet),
    decreases packet_model(packet),
{
    match open_level(packet) {
        Opened::Message(addr, args) => Packet::Message(Message { addr, args: open_args(args) }),
        Opened::Bundle(content) => {
            let mut opened: Vec<Packet> = Vec::new();
            for inner in iter: content
                invariant
                    iter.seq() == content@,
                    packet_model(packet) == PacketView::Bundle(packet_models(content@)),
                    opened@.len() == iter.index(),
                    forall|i: int|
                        0 <= i < opened@.len() ==> opened@[i]@ == packet_model(iter.seq()[i]),
            {
                proof {
                    let inside = packet_model(packet)->Bundle_0;
                    assert(inside[iter.index() as int] == packet_model(inner));
                    assert(decreases_to!(packet_model(packet) => packet_model(packet)->Bundle_0));
                    assert(decreases_to!(inside => inside[iter.index() as int]));
                }
                opened.push(open_packet(inner));
            }
            proof {
                lemma_packets_view(opened@);
                assert(packets_view(opened@) == packet_models(content@));
            }
            Packet::Bundle(opened)
        },
    }
}

/// The packet in a datagram.
pub fn decode(datagram: &[u8]) -> (r: Result<Packet, rosc::OscError>)
    ensures
        match decoding(datagram@) {
            Ok(packet) => r matches Ok(p) && p@ == packet,
            Err(error) => r == Err::<Packet, rosc::OscError>(error),
        },
{
    match decode_udp(datagram) {
        Ok(packet) => Ok(open_packet(packet)),
        Err(error) => Err(error),
    }
}

/// The datagram for a message.
pub fn encode_message(message: Message) -> (r: Result<Vec<u8>, rosc::OscError>)
    ensures
        r matches Ok(bytes) && carries(bytes@, message@),
{
    let mut closed: Vec<rosc::OscType> = Vec::new();
    let ghost sent = message@;
    for arg in iter: message.args
        invariant
            iter.seq() == message.args@,
            closed@.len() == iter.index(),
            forall|i: int|
                0 <= i < closed@.len() ==> arg_model(closed@[i]) == outgoing(iter.seq()[i]@),
    {
        closed.push(close_arg(arg));
    }
    proof {
        let models = sent.args.map_values(|arg: ArgView| outgoing(arg));
        assert(arg_models(closed@) == models);
        if readable(sent) || ends_in_blob(sent) {
            assert forall|i: int| 0 <= i < models.len() implies models[i] == sent.args[i] by {
                assert(plain(sent.args[i]) || sent.args[i] == sent.args.last());
            }
            assert(models == sent.args);
        }
    }
    encode(message.addr, closed)
}

} // verus!
