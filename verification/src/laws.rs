//! What the operations do, stated on what goes into a call and what comes out of it.

use crate::average::{average, AverageStep, Averaging};
use crate::exchange::Exchange;
use crate::feed::{
    all_heard, delivery, gained, handed, heard_of, padding, unsent, verdict, Error, PollError,
    Poller, Sent,
};
use crate::index::{ChannelIndex, HeadampIndex};
use crate::meters::{
    collect_array, float_blob, float_bytes, get_float_iter_from_blob, gives, le_bytes, le_value,
    read_meters, read_times, CollectError, FloatIter, Values,
};
use crate::osc::{
    arg, arg_as_str, lemma_packets_view, messages, ArgView, Argument, Message, MessageView, Packet,
    PacketView, ReplyError,
};
use crate::reply::{read_headamp_gain, read_headamp_index, read_info, Info};
use crate::text::{
    decimal, decimal_text, law_padded_reads_back, lemma_decimal_digits, lemma_padded_digits, number,
    padded, padded_text, signed_text,
};
use crate::wire::{
    arg_model, arg_models, carries, decoding, encode_message, encoding, ends_in_blob, outgoing,
    packet_model, packet_models, plain, readable, unbroken,
};
use crate::x32::{
    command_message, gain_address, gain_message, law_requests_are_readable, meters_address,
    meters_message, source_address, X32,
};
use vstd::prelude::*;

verus! {

/// A run of digits stands for the number that its digits make in the decimal system.
pub proof fn law_digits_make_a_number(text: Seq<char>, c: char)
    ensures
        number(Seq::<char>::empty()) == 0,
        number(text.push(c)) == 10 * number(text) + (c as int - '0' as int),
{
    assert(text.push(c).drop_last() == text);
}

/// A number in decimal begins with a zero only where it is zero.
proof fn lemma_first_digit(n: nat)
    ensures
        decimal(n).len() >= 1,
        n > 0 ==> decimal(n)[0] != '0',
        decimal(n).len() > 1 ==> n > 0,
    decreases n,
{
    if n >= 10 {
        lemma_first_digit(n / 10);
    }
}

/// The decimal text of a number is made of digits, reads back as the number, and has no zero in
/// front that it could do without.
pub proof fn law_decimal_text_spells_the_number(n: usize, text: String)
    requires
        call_ensures(decimal_text, (n,), text),
    ensures
        number(text@) == n,
        text@.len() >= 1,
        text@.len() > 1 ==> text@[0] != '0',
        forall|i: int| 0 <= i < text@.len() ==> '0' <= #[trigger] text@[i] && text@[i] <= '9',
{
    law_padded_reads_back(n as nat, 0);
    lemma_decimal_digits(n as nat);
    lemma_first_digit(n as nat);
}

/// What a padded text is made of.
proof fn lemma_padded(n: nat, width: nat)
    ensures
        number(padded(n, width)) == n,
        padded(n, width).len() >= width,
        padded(n, width).len() >= 1,
        padded(n, width).len() > width && padded(n, width).len() > 1 ==> padded(n, width)[0] != '0',
        forall|i: int|
            0 <= i < padded(n, width).len() ==> '0' <= #[trigger] padded(n, width)[i] && padded(
                n,
                width,
            )[i] <= '9',
{
    law_padded_reads_back(n, width);
    lemma_padded_digits(n, width);
    lemma_first_digit(n);
}

/// The padded text of a number is made of digits, reads back as the number, is as long as the width
/// at least, and has no zero in front that it could do without where it is longer.
pub proof fn law_padded_text_spells_the_number(n: usize, width: usize, text: String)
    requires
        call_ensures(padded_text, (n, width), text),
    ensures
        number(text@) == n,
        text@.len() >= width,
        text@.len() >= 1,
        text@.len() > width && text@.len() > 1 ==> text@[0] != '0',
        forall|i: int| 0 <= i < text@.len() ==> '0' <= #[trigger] text@[i] && text@[i] <= '9',
{
    lemma_padded(n as nat, width as nat);
}

/// The text of a negative number is a minus sign and the digits of its size; that of another number
/// is made of its digits alone.
pub proof fn law_signed_text_spells_the_number(n: i32, text: String)
    requires
        call_ensures(signed_text, (n,), text),
    ensures
        n < 0 ==> {
            &&& text@[0] == '-'
            &&& number(text@.skip(1)) == -n
            &&& text@.len() >= 2
            &&& text@[1] != '0'
            &&& forall|i: int|
                1 <= i < text@.len() ==> '0' <= #[trigger] text@[i] && text@[i] <= '9'
        },
        n >= 0 ==> {
            &&& number(text@) == n
            &&& text@.len() >= 1
            &&& text@.len() > 1 ==> text@[0] != '0'
            &&& forall|i: int|
                0 <= i < text@.len() ==> '0' <= #[trigger] text@[i] && text@[i] <= '9'
        },
{
    let size: nat = if n < 0 {
        (-n) as nat
    } else {
        n as nat
    };
    law_padded_reads_back(size, 0);
    lemma_decimal_digits(size);
    lemma_first_digit(size);
    if n < 0 {
        assert(text@.skip(1) == decimal(size));
    }
}

/// An index keeps the number that it is made with: a preamp's text spells it with three digits at
/// least, a channel's with two, and a channel converts back to it.
pub proof fn law_indices_keep_their_number(
    n: usize,
    headamp: HeadampIndex,
    headamp_text: String,
    channel: ChannelIndex,
    channel_text: String,
)
    requires
        call_ensures(HeadampIndex::new, (n,), headamp),
        call_ensures(HeadampIndex::to_string, (&headamp,), headamp_text),
        call_ensures(ChannelIndex::new, (n,), channel),
        call_ensures(ChannelIndex::to_string, (&channel,), channel_text),
    ensures
        headamp.number() == n,
        number(headamp_text@) == n,
        headamp_text@.len() >= 3,
        headamp_text@.len() > 3 ==> headamp_text@[0] != '0',
        forall|i: int|
            0 <= i < headamp_text@.len() ==> '0' <= #[trigger] headamp_text@[i] && headamp_text@[i]
                <= '9',
        channel.number() == n,
        number(channel_text@) == n,
        channel_text@.len() >= 2,
        channel_text@.len() > 2 ==> channel_text@[0] != '0',
        forall|i: int|
            0 <= i < channel_text@.len() ==> '0' <= #[trigger] channel_text@[i] && channel_text@[i]
                <= '9',
        <usize as vstd::std_specs::convert::FromSpec<ChannelIndex>>::obeys_from_spec(),
        <usize as vstd::std_specs::convert::FromSpec<ChannelIndex>>::from_spec(channel) == n,
{
    lemma_padded(n as nat, 3);
    lemma_padded(n as nat, 2);
}

/// The view of an argument holds the argument's own value.
pub proof fn law_argument_view(argument: Argument)
    ensures
        match argument {
            Argument::Int(value) => argument@ == ArgView::Int(value),
            Argument::Float(bits) => argument@ == ArgView::Float(bits),
            Argument::String(text) => argument@ == ArgView::Text(text@),
            Argument::Blob(bytes) => argument@ == ArgView::Blob(bytes@),
            Argument::Other(other) => argument@ == ArgView::Other(other),
        },
{
}

/// The view of a message holds its address and each of its arguments in its place.
pub proof fn law_message_view(message: Message)
    ensures
        message@.addr == message.addr@,
        message@.args.len() == message.args@.len(),
        forall|i: int|
            0 <= i < message.args@.len() ==> #[trigger] message@.args[i] == message.args@[i]@,
{
}

/// The view of a packet holds its message, or each packet of its bundle in its place.
pub proof fn law_packet_view(packet: Packet)
    ensures
        match packet {
            Packet::Message(message) => packet@ == PacketView::Message(message@),
            Packet::Bundle(content) => {
                &&& packet@ matches PacketView::Bundle(views)
                &&& views.len() == content@.len()
                &&& forall|i: int| 0 <= i < views.len() ==> #[trigger] views[i] == content@[i]@
            },
        },
{
    if let Packet::Bundle(content) = packet {
        lemma_packets_view(content@);
    }
}

/// What lists of arguments and of packets stand for is what each of them stands for, in its place.
pub proof fn law_models_keep_their_place(args: Seq<rosc::OscType>, packets: Seq<rosc::OscPacket>)
    ensures
        arg_models(args).len() == args.len(),
        forall|i: int| 0 <= i < args.len() ==> #[trigger] arg_models(args)[i] == arg_model(args[i]),
        packet_models(packets).len() == packets.len(),
        forall|i: int|
            0 <= i < packets.len() ==> #[trigger] packet_models(packets)[i] == packet_model(
                packets[i],
            ),
{
}

/// A copy of a message has its address and each of its arguments in its place.
pub proof fn law_copy_is_the_message(message: &Message, copy: Message)
    requires
        call_ensures(<Message as Clone>::clone, (message,), copy),
    ensures
        copy.addr@ == message.addr@,
        copy.args@.len() == message.args@.len(),
        forall|i: int|
            0 <= i < copy.args@.len() ==> (#[trigger] copy.args@[i])@ == message.args@[i]@,
{
    assert(copy@.args.len() == message@.args.len());
    assert forall|i: int| 0 <= i < copy.args@.len() implies (#[trigger] copy.args@[i])@
        == message.args@[i]@ by {
        assert(copy@.args[i] == message@.args[i]);
    }
}

/// The messages of a packet that is a message are that message and no other, whatever its address
/// and its arguments are.
pub proof fn law_message_is_its_own_messages(message: MessageView)
    ensures
        messages(PacketView::Message(message)).len() == 1,
        messages(PacketView::Message(message))[0] == message,
{
}

/// A bundle without packets has no messages, and a packet at the end of a bundle adds its messages
/// at the end.
pub proof fn law_bundle_goes_on_with_its_next_packet(content: Seq<PacketView>, packet: PacketView)
    ensures
        messages(PacketView::Bundle(Seq::<PacketView>::empty())).len() == 0,
        messages(PacketView::Bundle(content.push(packet))) == messages(PacketView::Bundle(content))
            + messages(packet),
{
    crate::osc::lemma_messages_push(content, packet);
}

/// What was heard of a log grows by each message that somebody listened for, and by no other.
pub proof fn law_heard_is_what_somebody_listened_for(log: Seq<Sent>, sent: Sent)
    ensures
        heard_of(Seq::<Sent>::empty()).len() == 0,
        sent.receivers > 0 ==> heard_of(log.push(sent)) == heard_of(log).push(sent.message),
        sent.receivers == 0 ==> heard_of(log.push(sent)) == heard_of(log),
{
    assert(log.push(sent).drop_last() == log);
}

/// What a delivery comes to, entry by entry.
proof fn lemma_delivered(before: Seq<Sent>, after: Seq<Sent>, run: Seq<MessageView>)
    requires
        delivery(before, after, run),
    ensures
        after.len() == before.len() + run.len(),
        forall|i: int| 0 <= i < before.len() ==> #[trigger] after[i] == before[i],
        forall|i: int|
            before.len() <= i < after.len() ==> (#[trigger] after[i]).message == run[i
                - before.len()],
{
    let log = gained(before, after);
    assert(handed(log).len() == log.len());
    assert forall|i: int| 0 <= i < before.len() implies #[trigger] after[i] == before[i] by {
        assert(before[i] == after.subrange(0, before.len() as int)[i]);
    }
    assert forall|i: int| before.len() <= i < after.len() implies (#[trigger] after[i]).message
        == run[i - before.len()] by {
        assert(handed(log)[i - before.len()] == log[i - before.len()].message);
    }
}

/// The poller's log grows by the messages of a packet, each of them once and in their order, and
/// keeps what it had; the outcome is a success if somebody listened for each of them, and otherwise
/// gives back the first that nobody listened for.
pub proof fn law_packet_goes_to_the_channel(
    poller: &mut Poller,
    packet: Packet,
    r: Result<(), Error>,
)
    requires
        call_ensures(Poller::recurse_send, (poller, packet), r),
    ensures
        final(poller).channel() == old(poller).channel(),
        final(poller).log().len() == old(poller).log().len() + messages(packet@).len(),
        forall|i: int|
            0 <= i < old(poller).log().len() ==> #[trigger] final(poller).log()[i]
                == old(poller).log()[i],
        forall|i: int|
            old(poller).log().len() <= i < final(poller).log().len() ==> (
            #[trigger] final(poller).log()[i]).message == messages(packet@)[i
                - old(poller).log().len()],
        r is Ok <==> forall|i: int|
            old(poller).log().len() <= i < final(poller).log().len() ==> (
            #[trigger] final(poller).log()[i]).receivers > 0,
        r is Err ==> exists|k: int|
            {
                &&& old(poller).log().len() <= k < final(poller).log().len()
                &&& (#[trigger] final(poller).log()[k]).receivers == 0
                &&& r matches Err(Error::Unheard(error))
                &&& unsent(error) == final(poller).log()[k].message
                &&& forall|i: int|
                    old(poller).log().len() <= i < k ==> (
                    #[trigger] final(poller).log()[i]).receivers > 0
            },
{
    let before = old(poller).log();
    let after = final(poller).log();
    let log = gained(before, after);
    assert(delivery(before, after, messages(packet@)));
    assert(verdict(log, r));
    lemma_delivered(before, after, messages(packet@));
    if r is Ok {
        assert forall|i: int| before.len() <= i < after.len() implies (
        #[trigger] after[i]).receivers > 0 by {
            assert(log[i - before.len()] == after[i]);
        }
    } else {
        assert(r matches Err(Error::Unheard(_)));
        let error = r->Err_0->Unheard_0;
        let k = choose|k: int|
            {
                &&& 0 <= k < log.len()
                &&& all_heard(log.take(k))
                &&& (#[trigger] log[k]).receivers == 0
                &&& unsent(error) == log[k].message
            };
        assert(after[before.len() + k] == log[k]);
        assert forall|i: int| before.len() <= i < before.len() + k implies (
        #[trigger] after[i]).receivers > 0 by {
            assert(log.take(k)[i - before.len()] == after[i]);
        }
    }
}

/// A message that is handed over adds exactly one entry to the poller's log, the message itself,
/// whatever its address and its arguments are.
pub proof fn law_message_goes_to_the_channel(
    poller: &mut Poller,
    message: Message,
    r: Result<(), Error>,
)
    requires
        call_ensures(Poller::recurse_send, (poller, Packet::Message(message)), r),
    ensures
        final(poller).log().len() == old(poller).log().len() + 1,
        final(poller).log().drop_last() == old(poller).log(),
        final(poller).log().last().message == message@,
        final(poller).log().last().receivers > 0 ==> r is Ok,
        final(poller).log().last().receivers == 0 ==> (r matches Err(Error::Unheard(error))
            && unsent(error) == message@),
{
    law_packet_goes_to_the_channel(poller, Packet::Message(message), r);
    law_message_is_its_own_messages(message@);
    law_packet_view(Packet::Message(message));
    let before = old(poller).log();
    let after = final(poller).log();
    assert(after.last() == after[before.len() as int]);
    if after.last().receivers > 0 {
        assert(forall|i: int|
            before.len() <= i < after.len() ==> (#[trigger] after[i]).receivers > 0);
    }
}

/// A datagram is decoded with eight zeros behind it. The messages of the packet that it holds go to
/// the channel, each of them once and in their order, and the poller goes on; without a datagram or
/// without a packet in it the poller stops, with the log as it was.
pub proof fn law_datagram_goes_to_the_channel<E>(
    poller: &mut Poller,
    outcome: Result<Vec<u8>, E>,
    r: Result<(), PollError<E>>,
)
    requires
        call_ensures(Poller::received::<E>, (poller, outcome), r),
    ensures
        final(poller).channel() == old(poller).channel(),
        match outcome {
            Err(error) => {
                &&& r == Err::<(), PollError<E>>(PollError::Receive(error))
                &&& final(poller).log() == old(poller).log()
            },
            Ok(datagram) => {
                let bytes = datagram@ + seq![0u8, 0u8, 0u8, 0u8, 0u8, 0u8, 0u8, 0u8];
                match decoding(bytes) {
                    Err(error) => {
                        &&& r matches Err(PollError::Decode(e, given))
                        &&& e == error
                        &&& given@ == bytes
                        &&& final(poller).log() == old(poller).log()
                    },
                    Ok(PacketView::Message(message)) => {
                        &&& r == Ok::<(), PollError<E>>(())
                        &&& final(poller).log().len() == old(poller).log().len() + 1
                        &&& final(poller).log().drop_last() == old(poller).log()
                        &&& final(poller).log().last().message == message
                    },
                    Ok(packet) => {
                        &&& r == Ok::<(), PollError<E>>(())
                        &&& final(poller).log().len() == old(poller).log().len() + messages(
                            packet,
                        ).len()
                        &&& forall|i: int|
                            0 <= i < old(poller).log().len() ==> #[trigger] final(poller).log()[i]
                                == old(poller).log()[i]
                        &&& forall|i: int|
                            old(poller).log().len() <= i < final(poller).log().len() ==> (
                            #[trigger] final(poller).log()[i]).message == messages(packet)[i
                                - old(poller).log().len()]
                    },
                }
            },
        },
{
    if let Ok(datagram) = outcome {
        let bytes = datagram@ + seq![0u8, 0u8, 0u8, 0u8, 0u8, 0u8, 0u8, 0u8];
        assert(bytes == datagram@ + padding());
        if let Ok(packet) = decoding(bytes) {
            assert(delivery(old(poller).log(), final(poller).log(), messages(packet)));
            lemma_delivered(old(poller).log(), final(poller).log(), messages(packet));
        }
    }
}

/// A message without unread arguments stands on the wire for its own address and arguments.
proof fn lemma_carried(datagram: Seq<u8>, message: MessageView)
    requires
        carries(datagram, message),
        forall|i: int| 0 <= i < message.args.len() ==> (#[trigger] message.args[i]) !is Other,
    ensures
        datagram == encoding(message.addr, message.args),
{
    let sent = message.args.map_values(|arg: ArgView| outgoing(arg));
    assert(sent == message.args);
}

/// The datagram for a message is the encoding of its address and its arguments, each in its place,
/// an unread one as `rosc` holds it.
pub proof fn law_message_is_encoded_whole(
    message: Message,
    args: Seq<ArgView>,
    r: Result<Vec<u8>, rosc::OscError>,
)
    requires
        call_ensures(encode_message, (message,), r),
        args.len() == message.args@.len(),
        forall|i: int|
            0 <= i < args.len() ==> #[trigger] args[i] == (match message.args@[i] {
                Argument::Int(value) => ArgView::Int(value),
                Argument::Float(bits) => ArgView::Float(bits),
                Argument::String(text) => ArgView::Text(text@),
                Argument::Blob(bytes) => ArgView::Blob(bytes@),
                Argument::Other(other) => arg_model(other),
            }),
    ensures
        r matches Ok(bytes) && bytes@ == encoding(message.addr@, args),
{
    assert(message@.args.map_values(|arg: ArgView| outgoing(arg)) == args);
}

/// A message whose address begins with a slash, whose arguments are numbers and texts, and which
/// holds no zero character, is decoded from its datagram, whatever follows. One that ends in a blob
/// is, where four bytes or more follow.
pub proof fn law_message_reads_back(
    message: Message,
    tail: Seq<u8>,
    r: Result<Vec<u8>, rosc::OscError>,
)
    requires
        call_ensures(encode_message, (message,), r),
        message.addr@.len() > 0,
        message.addr@[0] == '/',
        forall|i: int| 0 <= i < message.addr@.len() ==> #[trigger] message.addr@[i] != '\0',
        forall|i: int|
            0 <= i < message.args@.len() ==> match #[trigger] message.args@[i] {
                Argument::Int(_) => true,
                Argument::Float(_) => true,
                Argument::String(text) => forall|k: int|
                    0 <= k < text@.len() ==> #[trigger] text@[k] != '\0',
                Argument::Blob(bytes) => i == message.args@.len() - 1 && bytes@.len() <= u32::MAX
                    && tail.len() >= 4,
                Argument::Other(_) => false,
            },
    ensures
        r matches Ok(bytes) && decoding(bytes@ + tail) == Ok::<PacketView, rosc::OscError>(
            PacketView::Message(message@),
        ),
{
    let args = message@.args;
    assert forall|i: int| 0 <= i < args.len() implies (plain(#[trigger] args[i]) || (args[i]
        matches ArgView::Blob(bytes) && i == args.len() - 1 && bytes.len() <= u32::MAX
        && tail.len() >= 4)) by {
        assert(args[i] == message.args@[i]@);
        if let Argument::String(text) = message.args@[i] {
            assert(unbroken(text@));
        }
    }
    assert(unbroken(message.addr@));
    if args.len() > 0 && args.last() is Blob {
        assert(ends_in_blob(message@));
    } else {
        assert(readable(message@));
    }
}

/// A message goes out whole, and the exchange waits for the address that it is told to, on the
/// channel that messages arrive on; nothing is asked where nothing receives yet.
pub proof fn law_message_is_asked<S>(
    console: &X32<S>,
    message: Message,
    expect: &str,
    args: Seq<ArgView>,
    r: Result<Exchange, Error>,
)
    requires
        call_ensures(X32::<S>::send_recv_msg, (console, message, expect), r),
        args.len() == message.args@.len(),
        forall|i: int|
            0 <= i < args.len() ==> #[trigger] args[i] == (match message.args@[i] {
                Argument::Int(value) => ArgView::Int(value),
                Argument::Float(bits) => ArgView::Float(bits),
                Argument::String(text) => ArgView::Text(text@),
                Argument::Blob(bytes) => ArgView::Blob(bytes@),
                Argument::Other(other) => arg_model(other),
            }),
    ensures
        console.channel() is None ==> r == Err::<Exchange, Error>(Error::NotReceiving),
        console.channel() matches Some(channel) ==> {
            &&& r matches Ok(exchange)
            &&& exchange.channel() == channel
            &&& exchange.expect() == expect@
            &&& exchange.request() == encoding(message.addr@, args)
        },
{
    assert(message@.args.map_values(|arg: ArgView| outgoing(arg)) == args);
}

/// A message that is only sent goes out whole, whether or not something receives.
pub proof fn law_message_is_sent<S>(
    console: &X32<S>,
    message: Message,
    args: Seq<ArgView>,
    r: Result<Vec<u8>, Error>,
)
    requires
        call_ensures(X32::<S>::send_msg, (console, message), r),
        args.len() == message.args@.len(),
        forall|i: int|
            0 <= i < args.len() ==> #[trigger] args[i] == (match message.args@[i] {
                Argument::Int(value) => ArgView::Int(value),
                Argument::Float(bits) => ArgView::Float(bits),
                Argument::String(text) => ArgView::Text(text@),
                Argument::Blob(bytes) => ArgView::Blob(bytes@),
                Argument::Other(other) => arg_model(other),
            }),
    ensures
        r matches Ok(request) && request@ == encoding(message.addr@, args),
{
    assert(message@.args.map_values(|arg: ArgView| outgoing(arg)) == args);
}

/// A command goes out as a message with no arguments, and the reply is awaited under the command's
/// own address.
pub proof fn law_command_is_asked<S>(
    console: &X32<S>,
    command: &str,
    r: Result<Exchange, Error>,
)
    requires
        call_ensures(X32::<S>::send_recv_command, (console, command), r),
    ensures
        console.channel() is None ==> r == Err::<Exchange, Error>(Error::NotReceiving),
        console.channel() matches Some(channel) ==> {
            &&& r matches Ok(exchange)
            &&& exchange.channel() == channel
            &&& exchange.expect() == command@
            &&& exchange.request() == encoding(command@, Seq::empty())
        },
{
    if let Ok(exchange) = r {
        lemma_carried(exchange.request(), command_message(command@));
        assert(command_message(command@).args == Seq::<ArgView>::empty());
    }
}

/// The console is asked about itself with "/info" and no arguments, and the reply is awaited under
/// that address.
pub proof fn law_info_is_asked<S>(console: &X32<S>, r: Result<Exchange, Error>)
    requires
        call_ensures(X32::<S>::info, (console,), r),
    ensures
        console.channel() is None ==> r == Err::<Exchange, Error>(Error::NotReceiving),
        console.channel() matches Some(channel) ==> {
            &&& r matches Ok(exchange)
            &&& exchange.channel() == channel
            &&& exchange.expect() == "/info"@
            &&& exchange.request() == encoding("/info"@, Seq::empty())
            &&& forall|tail: Seq<u8>|
                #[trigger] decoding(exchange.request() + tail) == Ok::<PacketView, rosc::OscError>(
                    PacketView::Message((MessageView { addr: "/info"@, args: Seq::empty() })),
                )
        },
{
    if let Ok(exchange) = r {
        let message = command_message("/info"@);
        lemma_carried(exchange.request(), message);
        assert(message.args == Seq::<ArgView>::empty());
        law_requests_are_readable(arbitrary(), 0, arbitrary(), 0);
        assert(message == (MessageView { addr: "/info"@, args: Seq::empty() }));
    }
}

/// A preamp's gain is asked for with no arguments, at "/headamp/", the preamp's own number in
/// decimal, with three digits at least, and "/gain"; the reply is awaited under the same address.
pub proof fn law_gain_is_asked_of_the_preamp<S>(
    console: &X32<S>,
    index: HeadampIndex,
    r: Result<Exchange, Error>,
)
    requires
        call_ensures(X32::<S>::headamp_gain, (console, index), r),
    ensures
        console.channel() is None ==> r == Err::<Exchange, Error>(Error::NotReceiving),
        console.channel() matches Some(channel) ==> {
            &&& r matches Ok(exchange)
            &&& exchange.channel() == channel
            &&& exchange.request() == encoding(exchange.expect(), Seq::empty())
            &&& forall|tail: Seq<u8>|
                #[trigger] decoding(exchange.request() + tail) == Ok::<PacketView, rosc::OscError>(
                    PacketView::Message(
                        (MessageView { addr: exchange.expect(), args: Seq::empty() }),
                    ),
                )
            &&& exists|digits: Seq<char>|
                {
                    &&& #[trigger] number(digits) == index.number()
                    &&& exchange.expect() == "/headamp/"@ + digits + "/gain"@
                    &&& digits.len() >= 3
                    &&& digits.len() > 3 ==> digits[0] != '0'
                    &&& forall|i: int|
                        0 <= i < digits.len() ==> '0' <= #[trigger] digits[i] && digits[i] <= '9'
                }
        },
{
    if let Ok(exchange) = r {
        let message = command_message(gain_address(index));
        lemma_carried(exchange.request(), message);
        assert(message.args == Seq::<ArgView>::empty());
        law_requests_are_readable(index, 0, arbitrary(), 0);
        assert(message == (MessageView { addr: gain_address(index), args: Seq::empty() }));
        lemma_padded(index.number() as nat, 3);
        assert(number(padded(index.number() as nat, 3)) == index.number());
    }
}

/// A preamp's gain is set with the gain itself as the one argument, at "/headamp/", the preamp's
/// own number in decimal, with three digits at least, and "/gain".
pub proof fn law_gain_is_set_on_the_preamp<S>(
    console: &X32<S>,
    index: HeadampIndex,
    gain: u32,
    r: Result<Vec<u8>, Error>,
)
    requires
        call_ensures(X32::<S>::set_headamp_gain, (console, index, gain), r),
    ensures
        r matches Ok(request) && exists|digits: Seq<char>|
            {
                let addr = "/headamp/"@ + digits + "/gain"@;
                &&& #[trigger] number(digits) == index.number()
                &&& digits.len() >= 3
                &&& digits.len() > 3 ==> digits[0] != '0'
                &&& forall|i: int|
                    0 <= i < digits.len() ==> '0' <= #[trigger] digits[i] && digits[i] <= '9'
                &&& request@ == encoding(addr, seq![ArgView::Float(gain)])
                &&& forall|tail: Seq<u8>|
                    #[trigger] decoding(request@ + tail) == Ok::<PacketView, rosc::OscError>(
                        PacketView::Message(
                            (MessageView { addr, args: seq![ArgView::Float(gain)] }),
                        ),
                    )
            },
{
    let request = r->Ok_0;
    let message = gain_message(index, gain);
    lemma_carried(request@, message);
    assert(message.args == seq![ArgView::Float(gain)]);
    law_requests_are_readable(index, gain, arbitrary(), 0);
    lemma_padded(index.number() as nat, 3);
    let digits = padded(index.number() as nat, 3);
    assert(number(digits) == index.number());
    assert(message.addr == "/headamp/"@ + digits + "/gain"@);
    assert(message == (MessageView {
        addr: "/headamp/"@ + digits + "/gain"@,
        args: seq![ArgView::Float(gain)],
    }));
}

/// The preamp of a channel is asked for with no arguments, at "/-ha/", the channel's own number in
/// decimal, with two digits at least, and "/index"; the reply is awaited under the same address.
pub proof fn law_source_is_asked_of_the_channel<S>(
    console: &X32<S>,
    index: ChannelIndex,
    r: Result<Exchange, Error>,
)
    requires
        call_ensures(X32::<S>::channel_index_to_headamp_index, (console, index), r),
    ensures
        console.channel() is None ==> r == Err::<Exchange, Error>(Error::NotReceiving),
        console.channel() matches Some(channel) ==> {
            &&& r matches Ok(exchange)
            &&& exchange.channel() == channel
            &&& exchange.request() == encoding(exchange.expect(), Seq::empty())
            &&& forall|tail: Seq<u8>|
                #[trigger] decoding(exchange.request() + tail) == Ok::<PacketView, rosc::OscError>(
                    PacketView::Message(
                        (MessageView { addr: exchange.expect(), args: Seq::empty() }),
                    ),
                )
            &&& exists|digits: Seq<char>|
                {
                    &&& #[trigger] number(digits) == index.number()
                    &&& exchange.expect() == "/-ha/"@ + digits + "/index"@
                    &&& digits.len() >= 2
                    &&& digits.len() > 2 ==> digits[0] != '0'
                    &&& forall|i: int|
                        0 <= i < digits.len() ==> '0' <= #[trigger] digits[i] && digits[i] <= '9'
                }
        },
{
    if let Ok(exchange) = r {
        let message = command_message(source_address(index));
        lemma_carried(exchange.request(), message);
        assert(message.args == Seq::<ArgView>::empty());
        law_requests_are_readable(arbitrary(), 0, index, 0);
        assert(message == (MessageView { addr: source_address(index), args: Seq::empty() }));
        lemma_padded(index.number() as nat, 2);
        assert(number(padded(index.number() as nat, 2)) == index.number());
    }
}

/// The message that asks for a bank of meters goes to "/meters" with two arguments: the address of
/// the bank, which is "/meters/" and the bank's own number in decimal, and zero.
pub proof fn law_meters_message_names_its_bank<S>(index: u8, message: Message)
    requires
        call_ensures(X32::<S>::meters_msg, (index,), message),
    ensures
        message.addr@ == "/meters"@,
        message.args@.len() == 2,
        message.args@[0] matches Argument::String(bank) && exists|digits: Seq<char>|
            {
                &&& #[trigger] number(digits) == index
                &&& bank@ == "/meters/"@ + digits
                &&& digits.len() >= 1
                &&& digits.len() > 1 ==> digits[0] != '0'
                &&& forall|i: int|
                    0 <= i < digits.len() ==> '0' <= #[trigger] digits[i] && digits[i] <= '9'
            },
        message.args@[1] == Argument::Int(0),
{
    let view = meters_message(index);
    assert(message@.args == view.args);
    assert(view.args.len() == 2);
    assert(message@.args[0] == message.args@[0]@);
    assert(message@.args[1] == message.args@[1]@);
    assert(view.args[0] == ArgView::Text(meters_address(index)));
    assert(view.args[1] == ArgView::Int(0));
    law_padded_reads_back(index as nat, 0);
    lemma_decimal_digits(index as nat);
    lemma_first_digit(index as nat);
    assert(number(decimal(index as nat)) == index);
}

/// The meters are asked for at "/meters" with the text "/meters/1" and zero, and the reply is
/// awaited under "/meters/1".
pub proof fn law_meters_are_asked<S>(console: &X32<S>, r: Result<Exchange, Error>)
    requires
        call_ensures(X32::<S>::meters, (console,), r),
    ensures
        console.channel() is None ==> r == Err::<Exchange, Error>(Error::NotReceiving),
        console.channel() matches Some(channel) ==> {
            let args = seq![ArgView::Text("/meters/1"@), ArgView::Int(0)];
            &&& r matches Ok(exchange)
            &&& exchange.channel() == channel
            &&& exchange.expect() == "/meters/1"@
            &&& exchange.request() == encoding("/meters"@, args)
            &&& forall|tail: Seq<u8>|
                #[trigger] decoding(exchange.request() + tail) == Ok::<PacketView, rosc::OscError>(
                    PacketView::Message((MessageView { addr: "/meters"@, args })),
                )
        },
{
    if let Ok(exchange) = r {
        reveal_strlit("/meters/");
        reveal_strlit("/meters/1");
        assert("/meters/1"@ == meters_address(1));
        let args = seq![ArgView::Text("/meters/1"@), ArgView::Int(0)];
        let message = meters_message(1);
        assert(message.args == args);
        lemma_carried(exchange.request(), message);
        law_requests_are_readable(arbitrary(), 0, arbitrary(), 1);
        assert(message == (MessageView { addr: "/meters"@, args }));
    }
}

/// An argument is found by its position, and its absence is told with the position.
pub proof fn law_argument_is_found_by_position<'a>(
    message: &'a Message,
    index: usize,
    r: Result<&'a Argument, ReplyError<'a>>,
)
    requires
        call_ensures(arg, (message, index), r),
    ensures
        index < message.args@.len() ==> (r matches Ok(found) && *found
            == message.args@[index as int]),
        index >= message.args@.len() ==> r == Err::<&Argument, ReplyError>(
            ReplyError::MissingArgument(index),
        ),
{
}

/// A text is found by its position; an argument there that is no text comes back in the error.
pub proof fn law_text_is_found_by_position<'a>(
    message: &'a Message,
    index: usize,
    r: Result<&'a str, ReplyError<'a>>,
)
    requires
        call_ensures(arg_as_str, (message, index), r),
    ensures
        index >= message.args@.len() ==> r == Err::<&str, ReplyError>(
            ReplyError::MissingArgument(index),
        ),
        index < message.args@.len() ==> match message.args@[index as int] {
            Argument::String(text) => r matches Ok(found) && found@ == text@,
            _ => r matches Err(ReplyError::ExpectedString(found)) && *found
                == message.args@[index as int],
        },
{
}

/// An info reply has the OSC version, the OSC kind, the name and the version as its first four
/// arguments, in this order, however many follow.
pub proof fn law_info_has_the_first_four_texts<'a>(
    message: &'a Message,
    r: Result<Info, ReplyError<'a>>,
)
    requires
        call_ensures(read_info, (message,), r),
        message.args@.len() >= 4,
        forall|i: int| 0 <= i < 4 ==> (#[trigger] message.args@[i]) is String,
    ensures
        r matches Ok(info) && {
            &&& message.args@[0] matches Argument::String(text) && info.osc_version@ == text@
            &&& message.args@[1] matches Argument::String(text) && info.osc_kind@ == text@
            &&& message.args@[2] matches Argument::String(text) && info.name@ == text@
            &&& message.args@[3] matches Argument::String(text) && info.version@ == text@
        },
{
    assert(message.args@[0] is String);
    assert(message.args@[1] is String);
    assert(message.args@[2] is String);
    assert(message.args@[3] is String);
}

/// An info reply is refused for the first of its four positions that holds no text, and says
/// whether there is another argument or none.
pub proof fn law_info_is_refused_for_the_first_bad_argument<'a>(
    message: &'a Message,
    k: int,
    r: Result<Info, ReplyError<'a>>,
)
    requires
        call_ensures(read_info, (message,), r),
        0 <= k < 4,
        k <= message.args@.len(),
        forall|i: int| 0 <= i < k ==> (#[trigger] message.args@[i]) is String,
        k < message.args@.len() ==> message.args@[k] !is String,
    ensures
        k == message.args@.len() ==> r == Err::<Info, ReplyError>(
            ReplyError::MissingArgument(k as usize),
        ),
        k < message.args@.len() ==> (r matches Err(ReplyError::ExpectedString(found)) && *found
            == message.args@[k]),
{
    assert(k > 0 ==> message.args@[0] is String);
    assert(k > 1 ==> message.args@[1] is String);
    assert(k > 2 ==> message.args@[2] is String);
}

/// The gain in a reply is the bit pattern of its first argument, which has to be a float.
pub proof fn law_gain_is_the_first_float<'a>(message: &'a Message, r: Result<u32, ReplyError<'a>>)
    requires
        call_ensures(read_headamp_gain, (message,), r),
    ensures
        message.args@.len() == 0 ==> r == Err::<u32, ReplyError>(ReplyError::MissingArgument(0)),
        message.args@.len() > 0 ==> match message.args@[0] {
            Argument::Float(bits) => r == Ok::<u32, ReplyError>(bits),
            _ => r matches Err(ReplyError::ExpectedFloat(found)) && *found == message.args@[0],
        },
{
}

/// The preamp in a reply has the number of its first argument, which has to be an integer that is
/// not negative.
pub proof fn law_headamp_is_the_first_integer<'a>(
    message: &'a Message,
    r: Result<HeadampIndex, ReplyError<'a>>,
)
    requires
        call_ensures(read_headamp_index, (message,), r),
    ensures
        message.args@.len() == 0 ==> r == Err::<HeadampIndex, ReplyError>(
            ReplyError::MissingArgument(0),
        ),
        message.args@.len() > 0 ==> match message.args@[0] {
            Argument::Int(value) => {
                &&& value >= 0 ==> (r matches Ok(headamp) && headamp.number() == value)
                &&& value < 0 ==> r == Err::<HeadampIndex, ReplyError>(
                    ReplyError::InvalidHeadampIndex(value),
                )
            },
            _ => r matches Err(ReplyError::ExpectedInt(found)) && *found == message.args@[0],
        },
{
}

/// The four bytes that a number is read from are its digits to the base 256, the lowest first.
pub proof fn law_number_has_its_bytes(bytes: Seq<u8>)
    requires
        bytes.len() >= 4,
    ensures
        le_value(bytes) % 0x100 == bytes[0],
        le_value(bytes) / 0x100 % 0x100 == bytes[1],
        le_value(bytes) / 0x1_0000 % 0x100 == bytes[2],
        le_value(bytes) / 0x100_0000 == bytes[3],
{
    let sum = bytes[0] + 0x100 * bytes[1] + 0x1_0000 * bytes[2] + 0x100_0000 * bytes[3];
    assert(le_value(bytes) == sum);
}

/// The four bytes of a number make up the number, the lowest first.
proof fn lemma_bytes_make_the_number(value: u32)
    ensures
        le_bytes(value).len() == 4,
        value == le_bytes(value)[0] + 0x100 * le_bytes(value)[1] + 0x1_0000 * le_bytes(value)[2]
            + 0x100_0000 * le_bytes(value)[3],
{
}

/// Where the bytes of a float stand in a blob.
proof fn lemma_float_in_blob(floats: Seq<u32>, i: int, k: int)
    requires
        0 <= i < floats.len(),
        0 <= k < 4,
    ensures
        float_blob(floats)[4 + k + 4 * i] == le_bytes(floats[i])[k],
{
    assert((4 * i + k) / 4 == i && (4 * i + k) % 4 == k);
    assert(le_bytes(floats.len() as u32).len() == 4);
    assert(float_blob(floats)[4 + k + 4 * i] == float_bytes(floats)[4 * i + k]);
}

/// A blob of floats begins with their number, and the bytes of each float follow in its place, the
/// lowest first in both.
#[verifier::rlimit(40)]
pub proof fn law_blob_has_the_floats_in_place(floats: Seq<u32>)
    requires
        floats.len() <= u32::MAX,
    ensures
        float_blob(floats).len() == 4 + 4 * floats.len(),
        floats.len() == float_blob(floats)[0] + 0x100 * float_blob(floats)[1] + 0x1_0000
            * float_blob(floats)[2] + 0x100_0000 * float_blob(floats)[3],
        forall|i: int|
            0 <= i < floats.len() ==> #[trigger] floats[i] == float_blob(floats)[4 + 4 * i] + 0x100
                * float_blob(floats)[5 + 4 * i] + 0x1_0000 * float_blob(floats)[6 + 4 * i]
                + 0x100_0000 * float_blob(floats)[7 + 4 * i],
{
    let blob = float_blob(floats);
    let count = floats.len() as u32;
    lemma_bytes_make_the_number(count);
    assert(forall|k: int| 0 <= k < 4 ==> #[trigger] blob[k] == le_bytes(count)[k]);
    assert forall|i: int| 0 <= i < floats.len() implies #[trigger] floats[i] == blob[4 + 4 * i]
        + 0x100 * blob[5 + 4 * i] + 0x1_0000 * blob[6 + 4 * i] + 0x100_0000 * blob[7 + 4 * i] by {
        lemma_bytes_make_the_number(floats[i]);
        lemma_float_in_blob(floats, i, 0);
        lemma_float_in_blob(floats, i, 1);
        lemma_float_in_blob(floats, i, 2);
        lemma_float_in_blob(floats, i, 3);
    }
}

/// A blob is read float by float: the first four bytes are the number of floats, the lowest first,
/// and four bytes follow for each. A float that is announced and that the blob does not hold in
/// full is an error from there on, and nothing comes after the announced ones.
#[verifier::rlimit(40)]
pub proof fn law_floats_are_read_in_place<'a>(
    blob: &'a [u8],
    n: nat,
    r: Result<FloatIter<'a>, ReplyError<'a>>,
)
    requires
        call_ensures(get_float_iter_from_blob, (blob,), r),
    ensures
        blob@.len() < 4 ==> r == Err::<FloatIter, ReplyError>(ReplyError::MissingFloatCount),
        blob@.len() >= 4 ==> {
            let count = blob@[0] + 0x100 * blob@[1] + 0x1_0000 * blob@[2] + 0x100_0000 * blob@[3];
            &&& r matches Ok(floats)
            &&& n < count && 4 + 4 * (n + 1) <= blob@.len() ==> {
                &&& floats.nth(n) matches Some(Ok(float))
                &&& float % 0x100 == blob@[4 + 4 * n as int]
                &&& float / 0x100 % 0x100 == blob@[5 + 4 * n as int]
                &&& float / 0x1_0000 % 0x100 == blob@[6 + 4 * n as int]
                &&& float / 0x100_0000 == blob@[7 + 4 * n as int]
            }
            &&& 4 + 4 * count <= blob@.len() && n >= count ==> floats.nth(n) is None
            &&& 4 + 4 * count > blob@.len() && 4 + 4 * (n + 1) > blob@.len() ==> floats.nth(n)
                == Some(Err::<u32, ReplyError>(ReplyError::TruncatedFloat))
        },
{
    if blob@.len() >= 4 {
        law_number_has_its_bytes(blob@);
        let rest = blob@.skip(4);
        if 4 + 4 * (n + 1) <= blob@.len() {
            let bytes = rest.skip(4 * n as int);
            assert(bytes[0] == blob@[4 + 4 * n as int]);
            assert(bytes[1] == blob@[5 + 4 * n as int]);
            assert(bytes[2] == blob@[6 + 4 * n as int]);
            assert(bytes[3] == blob@[7 + 4 * n as int]);
            law_number_has_its_bytes(bytes);
        }
    }
}

/// The meters of a reply are the first 32 floats of the blob in its first argument, each made of
/// four bytes, the lowest first. The reply is refused where it has no blob there, where the blob
/// is too short for the number of its floats, where it announces fewer, and where it ends too soon.
#[verifier::rlimit(40)]
pub proof fn law_meters_are_the_first_floats<'a>(
    message: &'a Message,
    r: Result<[u32; 32], ReplyError<'a>>,
)
    requires
        call_ensures(read_meters, (message,), r),
    ensures
        message.args@.len() == 0 || message.args@[0] !is Blob ==> r == Err::<
            [u32; 32],
            ReplyError,
        >(ReplyError::ExpectedBlob),
        message.args@.len() > 0 ==> (message.args@[0] matches Argument::Blob(blob) ==> {
            let count = blob@[0] + 0x100 * blob@[1] + 0x1_0000 * blob@[2] + 0x100_0000 * blob@[3];
            if blob@.len() < 4 {
                r == Err::<[u32; 32], ReplyError>(ReplyError::MissingFloatCount)
            } else if count >= 32 && blob@.len() >= 4 + 4 * 32 {
                &&& r matches Ok(meters)
                &&& forall|i: int|
                    0 <= i < 32 ==> {
                        &&& #[trigger] meters@[i] % 0x100 == blob@[4 + 4 * i]
                        &&& meters@[i] / 0x100 % 0x100 == blob@[5 + 4 * i]
                        &&& meters@[i] / 0x1_0000 % 0x100 == blob@[6 + 4 * i]
                        &&& meters@[i] / 0x100_0000 == blob@[7 + 4 * i]
                    }
            } else if 4 + 4 * count <= blob@.len() {
                r == Err::<[u32; 32], ReplyError>(ReplyError::MissingFloat(count as usize))
            } else {
                r == Err::<[u32; 32], ReplyError>(ReplyError::TruncatedFloat)
            }
        }),
{
    if message.args@.len() > 0 && message.args@[0] is Blob {
        let blob = message.args@[0]->Blob_0@;
        if blob.len() >= 4 {
            law_number_has_its_bytes(blob);
            if let Ok(meters) = r {
                assert forall|i: int| 0 <= i < 32 implies {
                    &&& #[trigger] meters@[i] % 0x100 == blob[4 + 4 * i]
                    &&& meters@[i] / 0x100 % 0x100 == blob[5 + 4 * i]
                    &&& meters@[i] / 0x1_0000 % 0x100 == blob[6 + 4 * i]
                    &&& meters@[i] / 0x100_0000 == blob[7 + 4 * i]
                } by {
                    let bytes = blob.skip(4 + 4 * i);
                    assert(bytes[0] == blob[4 + 4 * i]);
                    assert(bytes[1] == blob[5 + 4 * i]);
                    assert(bytes[2] == blob[6 + 4 * i]);
                    assert(bytes[3] == blob[7 + 4 * i]);
                    law_number_has_its_bytes(bytes);
                }
            }
        }
    }
}

/// A source that gives a value for each of some positions gives one for this.
proof fn lemma_gives<T, E, V: Values<T, E>>(values: V, len: nat, i: int)
    requires
        gives::<T, E, V>(values, len),
        0 <= i < len,
    ensures
        values.nth(i as nat) matches Some(Ok(_)),
{
}

/// An array is filled with the values of a source, each in its place, and the source is read once
/// for each of them. The first position without a value ends it: the positions before it are
/// filled, the others stay as they are, and the source is read once more than was filled.
pub proof fn law_array_is_filled_in_place<T, E, V: Values<T, E>>(
    values: &mut V,
    array: &mut [T],
    k: nat,
    r: Result<(), CollectError<E>>,
)
    requires
        call_ensures(collect_array::<T, E, V>, (values, array), r),
        k <= old(array)@.len(),
        forall|i: nat| i < k ==> (#[trigger] old(values).nth(i) matches Some(Ok(_))),
        k < old(array)@.len() ==> match old(values).nth(k) {
            Some(Ok(_)) => false,
            _ => true,
        },
    ensures
        final(array)@.len() == old(array)@.len(),
        forall|i: int|
            0 <= i < k ==> old(values).nth(i as nat) == Some(
                Ok::<T, E>(#[trigger] final(array)@[i]),
            ),
        forall|i: int|
            k <= i < old(array)@.len() ==> #[trigger] final(array)@[i] == old(array)@[i],
        k == old(array)@.len() ==> {
            &&& r is Ok
            &&& forall|n: nat| #[trigger] final(values).nth(n) == old(values).nth(n + k)
        },
        k < old(array)@.len() ==> {
            &&& r == (match old(values).nth(k) {
                Some(Err(error)) => Err::<(), CollectError<E>>(CollectError::Value(error)),
                _ => Err(CollectError::Missing(k as usize)),
            })
            &&& forall|n: nat| #[trigger] final(values).nth(n) == old(values).nth(n + k + 1)
        },
{
    let source = *old(values);
    assert(gives::<T, E, V>(source, k));
    if k < old(array)@.len() {
        if gives::<T, E, V>(source, old(array)@.len()) {
            lemma_gives::<T, E, V>(source, old(array)@.len(), k as int);
        }
        let j = choose|j: nat|
            {
                &&& j < old(array)@.len()
                &&& gives::<T, E, V>(*old(values), j)
                &&& match #[trigger] old(values).nth(j) {
                    None => r == Err::<(), CollectError<E>>(CollectError::Missing(j as usize)),
                    Some(Err(error)) => r == Err::<(), CollectError<E>>(CollectError::Value(error)),
                    Some(Ok(_)) => false,
                }
                &&& read_times::<T, E, V>(*old(values), *final(values), j + 1)
                &&& forall|i: int|
                    0 <= i < j ==> old(values).nth(i as nat) == Some(
                        Ok::<T, E>(#[trigger] final(array)@[i]),
                    )
                &&& forall|i: int|
                    j <= i < old(array)@.len() ==> #[trigger] final(array)@[i] == old(array)@[i]
            };
        if j < k {
            assert(old(values).nth(j) matches Some(Ok(_)));
        }
        if k < j {
            lemma_gives::<T, E, V>(source, j, k as int);
        }
        assert(j == k);
    }
}

/// An average starts with a reading to take, or with the division where it is over none.
pub proof fn law_average_starts_with_nothing_taken<S>(
    console: &X32<S>,
    frames: usize,
    step: AverageStep,
    again: AverageStep,
)
    requires
        call_ensures(X32::<S>::meters_averaged, (console, frames), step),
        call_ensures(average, (frames,), again),
    ensures
        frames == 0 ==> step == AverageStep::Divide(0) && again == AverageStep::Divide(0),
        frames > 0 ==> {
            &&& step matches AverageStep::Read(averaging)
            &&& averaging.frames() == frames
            &&& averaging.taken() == 0
        },
        frames > 0 ==> {
            &&& again matches AverageStep::Read(averaging)
            &&& averaging.frames() == frames
            &&& averaging.taken() == 0
        },
{
}

/// A reading is added as it is and counts once. The division by the number of readings follows when
/// that many are taken, and another reading while some are missing; an error ends the average.
pub proof fn law_reading_counts_once<E>(
    averaging: Averaging,
    outcome: Result<[u32; 32], E>,
    r: Result<([u32; 32], AverageStep), E>,
)
    requires
        call_ensures(Averaging::read::<E>, (averaging, outcome), r),
    ensures
        outcome matches Err(error) ==> r == Err::<([u32; 32], AverageStep), E>(error),
        outcome matches Ok(meters) ==> {
            &&& r matches Ok((added, step))
            &&& added == meters
            &&& match step {
                AverageStep::Divide(by) => {
                    &&& averaging.taken() + 1 == averaging.frames()
                    &&& by == averaging.frames()
                },
                AverageStep::Read(next) => {
                    &&& averaging.taken() + 1 < averaging.frames()
                    &&& next.frames() == averaging.frames()
                    &&& next.taken() == averaging.taken() + 1
                },
            }
        },
{
}

/// What an error says names the position, the index or the kind of argument that it is about, and
/// a position or an index is spelled in decimal.
pub proof fn law_error_says_what_it_is_about(error: &ReplyError<'_>, text: String)
    requires
        call_ensures(ReplyError::text, (error,), text),
    ensures
        match *error {
            ReplyError::MissingArgument(index) => exists|digits: Seq<char>|
                {
                    &&& #[trigger] number(digits) == index
                    &&& text@ == "Expected arg in position "@ + digits
                    &&& digits.len() >= 1
                    &&& digits.len() > 1 ==> digits[0] != '0'
                    &&& forall|i: int|
                        0 <= i < digits.len() ==> '0' <= #[trigger] digits[i] && digits[i] <= '9'
                },
            ReplyError::ExpectedString(_) => text@ == "Expected string"@,
            ReplyError::ExpectedFloat(_) => text@ == "Expected float"@,
            ReplyError::ExpectedInt(_) => text@ == "Expected float"@,
            ReplyError::ExpectedBlob => text@
                == "Expected blob in first argument of /meters reply"@,
            ReplyError::InvalidHeadampIndex(index) => exists|digits: Seq<char>|
                {
                    &&& #[trigger] number(digits) == (if index < 0 {
                        -index
                    } else {
                        index as int
                    })
                    &&& text@ == "Invalid headamp index: "@ + (if index < 0 {
                        seq!['-']
                    } else {
                        Seq::empty()
                    }) + digits
                    &&& digits.len() >= 1
                    &&& digits.len() > 1 ==> digits[0] != '0'
                    &&& forall|i: int|
                        0 <= i < digits.len() ==> '0' <= #[trigger] digits[i] && digits[i] <= '9'
                },
            ReplyError::MissingFloatCount => text@ == "Failed to get num floats"@,
            ReplyError::MissingFloat(index) => exists|digits: Seq<char>|
                {
                    &&& #[trigger] number(digits) == index
                    &&& text@ == "Could not get index "@ + digits + " from values"@
                    &&& digits.len() >= 1
                    &&& digits.len() > 1 ==> digits[0] != '0'
                    &&& forall|i: int|
                        0 <= i < digits.len() ==> '0' <= #[trigger] digits[i] && digits[i] <= '9'
                },
            ReplyError::TruncatedFloat => text@ == "Failed to parse float"@,
        },
{
    let size: nat = match *error {
        ReplyError::MissingArgument(index) => index as nat,
        ReplyError::MissingFloat(index) => index as nat,
        ReplyError::InvalidHeadampIndex(index) => if index < 0 {
            (-index) as nat
        } else {
            index as nat
        },
        _ => 0,
    };
    law_padded_reads_back(size, 0);
    lemma_decimal_digits(size);
    lemma_first_digit(size);
    assert(number(decimal(size)) == size);
    if let ReplyError::InvalidHeadampIndex(index) = *error {
        if index < 0 {
            assert(text@ == "Invalid headamp index: "@ + seq!['-'] + decimal(size));
        } else {
            assert(text@ == "Invalid headamp index: "@ + Seq::<char>::empty() + decimal(size));
        }
    }
}

/// To start to listen is to open a channel that keeps sixteen messages, another than before, and
/// the poller that comes out feeds that channel and has handed nothing over yet.
pub proof fn law_listening_opens_a_channel<S>(console: &mut X32<S>, poller: Poller)
    requires
        call_ensures(X32::<S>::poll_receive, (console,), poller),
    ensures
        final(console).transport() == old(console).transport(),
        final(console).channel() == Some(poller.channel()),
        final(console).channel() != old(console).channel(),
        final(console).capacity() == Some(16nat),
        poller.log().len() == 0,
{
}

} // verus!
