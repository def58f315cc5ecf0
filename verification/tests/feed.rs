use tokio::sync::broadcast::error::TryRecvError;
use x32osc::feed::{Error, PollError, Poller};
use x32osc::osc::{Argument, Message, Packet};
use x32osc::x32::X32;

fn text(addr: &str) -> Message {
    Message { addr: addr.to_string(), args: vec![] }
}

fn wire(addr: &str, args: Vec<rosc::OscType>) -> rosc::OscPacket {
    rosc::OscPacket::Message(rosc::OscMessage { addr: addr.to_string(), args })
}

fn bundle(content: Vec<rosc::OscPacket>) -> rosc::OscPacket {
    rosc::OscPacket::Bundle(rosc::OscBundle { timetag: rosc::OscTime { seconds: 1, fractional: 2 }, content })
}

fn datagram(packet: &rosc::OscPacket) -> Vec<u8> {
    rosc::encoder::encode(packet).unwrap()
}

fn feed(poller: &mut Poller, packet: &rosc::OscPacket) -> Result<(), PollError<()>> {
    poller.received(Ok(datagram(packet)))
}

#[test]
fn a_message_reaches_the_listener() {
    let mut console = X32::new(());
    let mut poller = console.poll_receive();
    let mut listening = console.start_recv_msg("/info").unwrap();
    let args = vec![
        rosc::OscType::Int(-7),
        rosc::OscType::Float(0.5),
        rosc::OscType::String("abc".to_string()),
        rosc::OscType::Long(1),
        rosc::OscType::Blob(vec![1, 2, 3]),
    ];
    assert!(feed(&mut poller, &wire("/info", args)).is_ok());
    let expected = Message {
        addr: "/info".to_string(),
        args: vec![
            Argument::Int(-7),
            Argument::Float(0x3f00_0000),
            Argument::String("abc".to_string()),
            Argument::Other(rosc::OscType::Long(1)),
            Argument::Blob(vec![1, 2, 3]),
        ],
    };
    assert_eq!(listening.rx.try_recv(), Ok(expected));
    assert_eq!(listening.rx.try_recv(), Err(TryRecvError::Empty));
}

#[test]
fn every_listener_hears_every_message() {
    let mut console = X32::new(());
    let mut poller = console.poll_receive();
    let mut one = console.start_recv_msg("/a").unwrap();
    let mut two = console.start_recv_msg("/b").unwrap();
    assert!(feed(&mut poller, &wire("/a", vec![])).is_ok());
    assert_eq!(one.rx.try_recv(), Ok(text("/a")));
    assert_eq!(two.rx.try_recv(), Ok(text("/a")));
}

#[test]
fn bundles_are_opened_in_order() {
    let mut console = X32::new(());
    let mut poller = console.poll_receive();
    let mut listening = console.start_recv_msg("/x").unwrap();
    let packet = bundle(vec![
        wire("/1", vec![]),
        bundle(vec![wire("/2", vec![]), bundle(vec![]), bundle(vec![wire("/3", vec![])])]),
        wire("/4", vec![]),
    ]);
    assert!(feed(&mut poller, &packet).is_ok());
    for addr in ["/1", "/2", "/3", "/4"] {
        assert_eq!(listening.rx.try_recv(), Ok(text(addr)));
    }
    assert_eq!(listening.rx.try_recv(), Err(TryRecvError::Empty));
}

#[test]
fn recurse_send_opens_nested_bundles() {
    let mut console = X32::new(());
    let mut poller = console.poll_receive();
    let mut listening = console.start_recv_msg("/x").unwrap();
    let packet = Packet::Bundle(vec![
        Packet::Bundle(vec![Packet::Message(text("/1")), Packet::Message(text("/2"))]),
        Packet::Message(text("/3")),
    ]);
    assert!(poller.recurse_send(packet).is_ok());
    for addr in ["/1", "/2", "/3"] {
        assert_eq!(listening.rx.try_recv(), Ok(text(addr)));
    }
}

#[test]
fn datagrams_are_heard_in_the_order_of_arrival() {
    let mut console = X32::new(());
    let mut poller = console.poll_receive();
    let mut listening = console.start_recv_msg("/x").unwrap();
    assert!(feed(&mut poller, &bundle(vec![wire("/1", vec![]), wire("/2", vec![])])).is_ok());
    assert!(feed(&mut poller, &wire("/3", vec![])).is_ok());
    for addr in ["/1", "/2", "/3"] {
        assert_eq!(listening.rx.try_recv(), Ok(text(addr)));
    }
}

#[test]
fn a_message_that_nobody_hears_does_not_stop_the_poller() {
    let mut console = X32::new(());
    let mut poller = console.poll_receive();
    assert!(feed(&mut poller, &wire("/a", vec![])).is_ok());
    assert!(feed(&mut poller, &bundle(vec![wire("/1", vec![]), wire("/2", vec![])])).is_ok());
    let mut listening = console.start_recv_msg("/b").unwrap();
    assert!(feed(&mut poller, &wire("/b", vec![])).is_ok());
    assert_eq!(listening.rx.try_recv(), Ok(text("/b")));
    assert_eq!(listening.rx.try_recv(), Err(TryRecvError::Empty));
}

#[test]
fn the_first_message_that_nobody_hears_comes_back() {
    let mut console = X32::new(());
    let mut poller = console.poll_receive();
    let packet = || {
        Packet::Bundle(vec![
            Packet::Bundle(vec![]),
            Packet::Bundle(vec![Packet::Message(text("/1"))]),
            Packet::Message(text("/2")),
        ])
    };
    match poller.recurse_send(packet()) {
        Err(Error::Unheard(unheard)) => assert_eq!(unheard.0, text("/1")),
        _ => panic!("expected the message back"),
    }
    let mut listening = console.start_recv_msg("/x").unwrap();
    assert_eq!(listening.rx.try_recv(), Err(TryRecvError::Empty));
    assert!(poller.recurse_send(packet()).is_ok());
    assert_eq!(listening.rx.try_recv(), Ok(text("/1")));
    assert_eq!(listening.rx.try_recv(), Ok(text("/2")));
    assert_eq!(listening.rx.try_recv(), Err(TryRecvError::Empty));
    drop(listening);
    assert!(poller.recurse_send(packet()).is_err());
}

#[test]
fn grouping_and_time_tags_make_no_difference() {
    let mut console = X32::new(());
    let mut poller = console.poll_receive();
    let mut listening = console.start_recv_msg("/x").unwrap();
    let flat = bundle(vec![wire("/1", vec![]), wire("/2", vec![])]);
    let nested = rosc::OscPacket::Bundle(rosc::OscBundle {
        timetag: rosc::OscTime { seconds: 9, fractional: 9 },
        content: vec![bundle(vec![wire("/1", vec![])]), bundle(vec![wire("/2", vec![])])],
    });
    for packet in [flat, nested] {
        assert!(feed(&mut poller, &packet).is_ok());
        assert_eq!(listening.rx.try_recv(), Ok(text("/1")));
        assert_eq!(listening.rx.try_recv(), Ok(text("/2")));
        assert_eq!(listening.rx.try_recv(), Err(TryRecvError::Empty));
    }
}

#[test]
fn the_channel_stays_open_while_the_console_or_the_poller_is_there() {
    let mut console = X32::new(());
    let poller = console.poll_receive();
    let mut listening = console.start_recv_msg("/x").unwrap();
    drop(poller);
    assert_eq!(listening.rx.try_recv(), Err(TryRecvError::Empty));
    drop(console);
    assert_eq!(listening.rx.try_recv(), Err(TryRecvError::Closed));
}

#[test]
fn an_empty_bundle_needs_no_listener() {
    let mut console = X32::new(());
    let mut poller = console.poll_receive();
    assert!(feed(&mut poller, &bundle(vec![])).is_ok());
    assert!(poller.recurse_send(Packet::Bundle(vec![])).is_ok());
}

#[test]
fn a_bad_datagram_comes_back_with_its_padding() {
    let mut console = X32::new(());
    let mut poller = console.poll_receive();
    let outcome: Result<(), PollError<()>> = poller.received(Ok(vec![1, 2, 3]));
    match outcome {
        Err(PollError::Decode(_, bytes)) => {
            assert_eq!(bytes, vec![1, 2, 3, 0, 0, 0, 0, 0, 0, 0, 0])
        }
        _ => panic!("expected a decoding error"),
    }
}

#[test]
fn a_failed_receive_stops_the_poller() {
    let mut console = X32::new(());
    let mut poller = console.poll_receive();
    match poller.received(Err("socket closed")) {
        Err(PollError::Receive(error)) => assert_eq!(error, "socket closed"),
        _ => panic!("expected the receiver's error"),
    }
}

#[test]
fn the_padding_makes_a_trailing_blob_readable() {
    let packet = wire("/meters/1", vec![rosc::OscType::Blob(vec![1, 2, 3, 4])]);
    assert!(rosc::decoder::decode_udp(&datagram(&packet)).is_err());

    let mut console = X32::new(());
    let mut poller = console.poll_receive();
    let mut listening = console.start_recv_msg("/meters/1").unwrap();
    assert!(feed(&mut poller, &packet).is_ok());
    assert_eq!(
        listening.rx.try_recv().unwrap().args,
        vec![Argument::Blob(vec![1, 2, 3, 4])]
    );
}

#[test]
fn the_channel_keeps_sixteen_messages() {
    let mut console = X32::new(());
    let mut poller = console.poll_receive();
    let mut listening = console.start_recv_msg("/x").unwrap();
    for _ in 0..16 {
        assert!(feed(&mut poller, &wire("/1", vec![])).is_ok());
    }
    assert_eq!(listening.rx.try_recv(), Ok(text("/1")));

    let mut behind = console.start_recv_msg("/x").unwrap();
    for _ in 0..17 {
        assert!(feed(&mut poller, &wire("/1", vec![])).is_ok());
    }
    assert_eq!(behind.rx.try_recv(), Err(TryRecvError::Lagged(1)));
}

#[test]
fn listening_anew_opens_a_new_channel() {
    let mut console = X32::new(());
    let mut first = console.poll_receive();
    let mut on_first = console.start_recv_msg("/x").unwrap();
    let mut second = console.poll_receive();
    let mut on_second = console.start_recv_msg("/x").unwrap();
    assert!(feed(&mut second, &wire("/2", vec![])).is_ok());
    assert!(feed(&mut first, &wire("/1", vec![])).is_ok());
    assert_eq!(on_first.rx.try_recv(), Ok(text("/1")));
    assert_eq!(on_second.rx.try_recv(), Ok(text("/2")));
}
