use x32osc::exchange::{Exchange, Progress, Waiting};
use x32osc::feed::{Error, PollError};
use x32osc::index::{ChannelIndex, HeadampIndex};
use x32osc::meters::read_meters;
use x32osc::osc::{Argument, Message};
use x32osc::reply::read_headamp_gain;
use x32osc::wire::{decode, encode_message};
use x32osc::x32::X32;

fn text(addr: &str) -> Message {
    Message { addr: addr.to_string(), args: vec![] }
}

fn request_of(exchange: Exchange) -> Vec<u8> {
    exchange.begin().0
}

fn listening_console() -> X32<()> {
    let mut console = X32::new(());
    console.poll_receive();
    console
}

#[test]
fn nothing_is_asked_before_listening() {
    let console = X32::new(());
    assert!(matches!(console.info(), Err(Error::NotReceiving)));
    assert!(matches!(console.headamp_gain(HeadampIndex::new(0)), Err(Error::NotReceiving)));
    assert!(matches!(
        console.channel_index_to_headamp_index(ChannelIndex::new(0)),
        Err(Error::NotReceiving)
    ));
    assert!(matches!(console.meters(), Err(Error::NotReceiving)));
    assert!(matches!(console.start_recv_msg("/info"), Err(Error::NotReceiving)));
    assert!(console.set_headamp_gain(HeadampIndex::new(0), 0).is_ok());
}

#[test]
fn the_console_keeps_its_sender() {
    let mut console = X32::new(17u8);
    assert_eq!(*console.sender(), 17);
    console.poll_receive();
    assert_eq!(*console.sender(), 17);
}

#[test]
fn info_request() {
    let request = request_of(listening_console().info().ok().unwrap());
    assert_eq!(request, b"/info\0\0\0,\0\0\0".to_vec());
}

#[test]
fn headamp_gain_request() {
    let exchange = listening_console().headamp_gain(HeadampIndex::new(5)).ok().unwrap();
    assert_eq!(request_of(exchange), b"/headamp/005/gain\0\0\0,\0\0\0".to_vec());
}

#[test]
fn set_headamp_gain_datagram() {
    let datagram = X32::new(()).set_headamp_gain(HeadampIndex::new(12), 0.5f32.to_bits()).unwrap();
    assert_eq!(datagram, b"/headamp/012/gain\0\0\0,f\0\0\x3f\0\0\0".to_vec());
}

#[test]
fn headamp_index_request() {
    let exchange =
        listening_console().channel_index_to_headamp_index(ChannelIndex::new(7)).ok().unwrap();
    assert_eq!(request_of(exchange), b"/-ha/07/index\0\0\0,\0\0\0".to_vec());
}

#[test]
fn meters_request() {
    let exchange = listening_console().meters().ok().unwrap();
    assert_eq!(
        request_of(exchange),
        b"/meters\0,si\0/meters/1\0\0\0\0\0\0\0".to_vec()
    );
}

#[test]
fn meters_message_names_its_bank() {
    let message = X32::<()>::meters_msg(13);
    assert_eq!(
        message,
        Message {
            addr: "/meters".to_string(),
            args: vec![Argument::String("/meters/13".to_string()), Argument::Int(0)],
        }
    );
}

#[test]
fn a_command_expects_its_own_address() {
    let console = listening_console();
    let (_, sending) = console.send_recv_command("/status").ok().unwrap().begin();
    let listening = sending.sent::<()>(Ok(())).unwrap();
    match listening.waiting.received::<()>(Ok(text("/status"))) {
        Ok(Progress::Reply(message)) => assert_eq!(message, text("/status")),
        _ => panic!("expected the reply"),
    }
}

#[test]
fn a_failed_send_ends_the_exchange() {
    let (_, sending) = listening_console().info().ok().unwrap().begin();
    assert_eq!(sending.sent(Err("no route")).err(), Some("no route"));
}

#[test]
fn other_messages_are_passed_over() {
    let mut waiting = Waiting::new("/info");
    for other in ["/xinfo", "/inf", "/info/", ""] {
        waiting = match waiting.received::<()>(Ok(text(other))) {
            Ok(Progress::Waiting(waiting)) => waiting,
            _ => panic!("expected the wait to go on"),
        };
    }
    assert!(matches!(waiting.received::<()>(Ok(text("/info"))), Ok(Progress::Reply(_))));
}

#[test]
fn an_error_ends_the_wait() {
    let waiting = Waiting::new("/info");
    assert_eq!(waiting.received(Err("lagged")).err(), Some("lagged"));
}

#[test]
fn a_reply_between_sending_and_waiting_is_heard() {
    let mut console = X32::new(());
    let mut poller = console.poll_receive();
    let (request, sending) = console.info().ok().unwrap().begin();
    let echoed: Result<(), PollError<()>> = poller.received(Ok(request));
    assert!(echoed.is_ok());
    let mut listening = sending.sent::<()>(Ok(())).unwrap();
    match listening.waiting.received(listening.rx.try_recv()) {
        Ok(Progress::Reply(message)) => assert_eq!(message, text("/info")),
        _ => panic!("expected the reply"),
    }
}

#[test]
fn a_reply_inside_a_bundle_is_found() {
    let mut console = X32::new(());
    let mut poller = console.poll_receive();
    let (_, sending) = console.info().ok().unwrap().begin();
    let mut listening = sending.sent::<()>(Ok(())).unwrap();
    let message = |addr: &str| {
        rosc::OscPacket::Message(rosc::OscMessage { addr: addr.to_string(), args: vec![] })
    };
    let packet = rosc::OscPacket::Bundle(rosc::OscBundle {
        timetag: rosc::OscTime { seconds: 0, fractional: 1 },
        content: vec![message("/other"), message("/info")],
    });
    let fed: Result<(), PollError<()>> =
        poller.received(Ok(rosc::encoder::encode(&packet).unwrap()));
    assert!(fed.is_ok());
    let waiting = match listening.waiting.received(listening.rx.try_recv()) {
        Ok(Progress::Waiting(waiting)) => waiting,
        _ => panic!("expected the wait to go on"),
    };
    match waiting.received(listening.rx.try_recv()) {
        Ok(Progress::Reply(message)) => assert_eq!(message, text("/info")),
        _ => panic!("expected the reply"),
    }
}

#[test]
fn a_gain_that_was_set_reads_back() {
    let mut console = X32::new(());
    let mut poller = console.poll_receive();
    let (_, sending) = console.headamp_gain(HeadampIndex::new(3)).ok().unwrap().begin();
    let mut listening = sending.sent::<()>(Ok(())).unwrap();
    let bits = (-1.25f32).to_bits();
    let other = console.set_headamp_gain(HeadampIndex::new(4), bits).unwrap();
    let datagram = console.set_headamp_gain(HeadampIndex::new(3), bits).unwrap();
    for bytes in [other, datagram] {
        let fed: Result<(), PollError<()>> = poller.received(Ok(bytes));
        assert!(fed.is_ok());
    }
    let waiting = match listening.waiting.received(listening.rx.try_recv()) {
        Ok(Progress::Waiting(waiting)) => waiting,
        _ => panic!("expected the wait to go on"),
    };
    match waiting.received(listening.rx.try_recv()) {
        Ok(Progress::Reply(message)) => assert_eq!(read_headamp_gain(&message), Ok(bits)),
        _ => panic!("expected the reply"),
    }
}

#[test]
fn meters_read_back_from_their_datagram() {
    let mut console = X32::new(());
    let mut poller = console.poll_receive();
    let (_, sending) = console.meters().ok().unwrap().begin();
    let mut listening = sending.sent::<()>(Ok(())).unwrap();
    let mut blob = 96u32.to_le_bytes().to_vec();
    for bits in 0..96u32 {
        blob.extend_from_slice(&(bits * 0x0101_0101).to_le_bytes());
    }
    let message = Message { addr: "/meters/1".to_string(), args: vec![Argument::Blob(blob)] };
    let fed: Result<(), PollError<()>> = poller.received(Ok(encode_message(message).unwrap()));
    assert!(fed.is_ok());
    match listening.waiting.received(listening.rx.try_recv()) {
        Ok(Progress::Reply(message)) => {
            let meters = read_meters(&message).unwrap();
            for (i, meter) in meters.iter().enumerate() {
                assert_eq!(*meter, i as u32 * 0x0101_0101);
            }
        }
        _ => panic!("expected the reply"),
    }
}

#[test]
fn a_trailing_blob_reads_back_with_four_bytes_behind_it() {
    let tails: [&[u8]; 3] = [&[0; 8], &[7, 7, 7, 7], b"#bundle\0junk"];
    for len in [0usize, 1, 2, 3, 4, 5, 132] {
        let message = Message {
            addr: "/ab".to_string(),
            args: vec![
                Argument::String("abc".to_string()),
                Argument::Int(-2),
                Argument::Blob(vec![9; len]),
            ],
        };
        let bytes = encode_message(message.clone()).unwrap();
        for tail in tails {
            let mut datagram = bytes.clone();
            datagram.extend_from_slice(tail);
            assert_eq!(
                decode(&datagram).unwrap(),
                x32osc::osc::Packet::Message(message.clone())
            );
        }
    }
}

#[test]
fn every_kind_of_argument_is_encoded() {
    let message = Message {
        addr: "/a".to_string(),
        args: vec![
            Argument::Int(1),
            Argument::Float(2.0f32.to_bits()),
            Argument::String("s".to_string()),
            Argument::Blob(vec![9]),
            Argument::Other(rosc::OscType::Bool(true)),
        ],
    };
    assert_eq!(
        encode_message(message).unwrap(),
        b"/a\0\0,ifsbT\0\0\0\0\0\x01\x40\0\0\0s\0\0\0\0\0\0\x01\x09\0\0\0".to_vec()
    );
}

#[test]
fn a_bare_datagram_is_decoded() {
    let packet = decode(b"/a\0\0,i\0\0\0\0\0\x05\0\0\0\0").unwrap();
    let expected = Message { addr: "/a".to_string(), args: vec![Argument::Int(5)] };
    assert_eq!(packet, x32osc::osc::Packet::Message(expected));
    assert!(decode(&[]).is_err());
    assert!(decode(b"no address").is_err());
}

#[test]
fn readable_messages_read_back_whatever_follows() {
    let tails: [&[u8]; 4] = [&[], &[0; 8], &[7, 7, 7], b"#bundle\0junk"];
    for addr in ["/", "/a", "/ab", "/abc", "/abcd", "/-ha/00/index", "/\u{e9}"] {
        for texts in [vec![], vec![""], vec!["x"], vec!["abc", "defg", ""], vec!["\u{20ac}"]] {
            let mut args = vec![Argument::Int(i32::MIN), Argument::Float(0x7fc0_0001)];
            for text in texts {
                args.push(Argument::String(text.to_string()));
                args.push(Argument::Int(-2));
            }
            let message = Message { addr: addr.to_string(), args };
            let bytes = encode_message(message.clone()).unwrap();
            for tail in tails {
                let mut datagram = bytes.clone();
                datagram.extend_from_slice(tail);
                assert_eq!(
                    decode(&datagram).unwrap(),
                    x32osc::osc::Packet::Message(message.clone())
                );
            }
        }
    }
}

#[test]
fn every_request_reads_back() {
    let console = listening_console();
    let index = HeadampIndex::new(101);
    let requests = [
        request_of(console.info().ok().unwrap()),
        request_of(console.headamp_gain(index).ok().unwrap()),
        request_of(console.channel_index_to_headamp_index(ChannelIndex::new(31)).ok().unwrap()),
        request_of(console.meters().ok().unwrap()),
        console.set_headamp_gain(index, 0x3f80_0000).unwrap(),
    ];
    let messages = [
        text("/info"),
        text("/headamp/101/gain"),
        text("/-ha/31/index"),
        X32::<()>::meters_msg(1),
        Message {
            addr: "/headamp/101/gain".to_string(),
            args: vec![Argument::Float(0x3f80_0000)],
        },
    ];
    for (request, message) in requests.iter().zip(messages) {
        assert_eq!(decode(request).unwrap(), x32osc::osc::Packet::Message(message));
    }
}

#[test]
fn gain_addresses_differ() {
    let console = listening_console();
    let mut seen = std::collections::HashSet::new();
    for n in 0..1200usize {
        let exchange = console.headamp_gain(HeadampIndex::new(n)).ok().unwrap();
        assert!(seen.insert(request_of(exchange)));
    }
}

#[test]
fn a_console_that_is_not_listened_to_says_so() {
    let error = X32::new(()).info().err().unwrap();
    assert_eq!(error.text(), Some("Receive channel not initialized".to_string()));
}

#[test]
fn an_unheard_message_has_no_text_of_its_own() {
    let mut poller = X32::new(()).poll_receive();
    let error = poller.recurse_send(x32osc::osc::Packet::Message(text("/a"))).err().unwrap();
    assert_eq!(error.text(), None);
}
