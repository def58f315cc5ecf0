use x32osc::average::AverageStep;
use x32osc::meters::{
    collect_array, cut_bytes, get_float_iter_from_blob, read_meters, CollectError, Values,
};
use x32osc::osc::{arg, arg_as_str, as_float, as_i32, as_str_ref, Argument, Message, ReplyError};
use x32osc::reply::{read_headamp_gain, read_headamp_index, read_info};
use x32osc::x32::X32;

fn reply(args: Vec<Argument>) -> Message {
    Message { addr: "/reply".to_string(), args }
}

fn text(s: &str) -> Argument {
    Argument::String(s.to_string())
}

fn blob_of(count: u32, floats: &[f32], tail: &[u8]) -> Vec<u8> {
    let mut blob = count.to_le_bytes().to_vec();
    for float in floats {
        blob.extend_from_slice(&float.to_le_bytes());
    }
    blob.extend_from_slice(tail);
    blob
}

fn ramp(len: usize) -> Vec<f32> {
    (0..len).map(|i| i as f32 * 0.25 - 1.0).collect()
}

#[test]
fn arguments_are_found_by_position() {
    let message = reply(vec![text("a"), Argument::Int(2)]);
    assert_eq!(arg(&message, 0), Ok(&text("a")));
    assert_eq!(arg(&message, 1), Ok(&Argument::Int(2)));
    assert_eq!(arg(&message, 2), Err(ReplyError::MissingArgument(2)));
    assert_eq!(arg_as_str(&message, 0), Ok("a"));
    assert_eq!(arg_as_str(&message, 1), Err(ReplyError::ExpectedString(&Argument::Int(2))));
    assert_eq!(arg_as_str(&message, 9), Err(ReplyError::MissingArgument(9)));
}

#[test]
fn arguments_are_read_by_their_type() {
    let string = text("hello");
    let float = Argument::Float(1.5f32.to_bits());
    let int = Argument::Int(-3);
    let other = Argument::Other(rosc::OscType::Nil);
    assert_eq!(as_str_ref(&string), Ok("hello"));
    assert_eq!(as_float(&float), Ok(1.5f32.to_bits()));
    assert_eq!(as_i32(&int), Ok(-3));
    assert_eq!(as_str_ref(&other), Err(ReplyError::ExpectedString(&other)));
    assert_eq!(as_float(&int), Err(ReplyError::ExpectedFloat(&int)));
    assert_eq!(as_i32(&float), Err(ReplyError::ExpectedInt(&float)));
}

#[test]
fn messages_are_cloned_whole() {
    let message = reply(vec![
        Argument::Int(1),
        Argument::Float(2),
        text("three"),
        Argument::Blob(vec![4]),
        Argument::Other(rosc::OscType::Inf),
    ]);
    assert_eq!(message.clone(), message);
}

#[test]
fn info_is_read_in_order() {
    let message = reply(vec![text("V2.05"), text("osc-server"), text("X32C"), text("2.12"), text("more")]);
    let info = read_info(&message).unwrap();
    assert_eq!(info.osc_version, "V2.05");
    assert_eq!(info.osc_kind, "osc-server");
    assert_eq!(info.name, "X32C");
    assert_eq!(info.version, "2.12");
}

#[test]
fn info_fails_on_the_first_bad_argument() {
    let short = reply(vec![text("a"), text("b"), text("c")]);
    assert_eq!(read_info(&short).err(), Some(ReplyError::MissingArgument(3)));
    let mixed = reply(vec![text("a"), Argument::Int(1), Argument::Int(2)]);
    assert_eq!(read_info(&mixed).err(), Some(ReplyError::ExpectedString(&Argument::Int(1))));
    assert_eq!(read_info(&reply(vec![])).err(), Some(ReplyError::MissingArgument(0)));
}

#[test]
fn gain_is_the_first_float() {
    let message = reply(vec![Argument::Float(0.75f32.to_bits()), Argument::Int(1)]);
    assert_eq!(read_headamp_gain(&message), Ok(0.75f32.to_bits()));
    assert_eq!(read_headamp_gain(&reply(vec![])), Err(ReplyError::MissingArgument(0)));
    let wrong = reply(vec![Argument::Int(1)]);
    assert_eq!(read_headamp_gain(&wrong), Err(ReplyError::ExpectedFloat(&Argument::Int(1))));
}

#[test]
fn headamp_index_is_not_negative() {
    let headamp = |index: i32| reply(vec![Argument::Int(index)]);
    assert_eq!(read_headamp_index(&headamp(0)).unwrap().to_string(), "000");
    assert_eq!(read_headamp_index(&headamp(45)).unwrap().to_string(), "045");
    assert_eq!(
        read_headamp_index(&headamp(i32::MAX)).unwrap().to_string(),
        "2147483647"
    );
    assert_eq!(
        read_headamp_index(&headamp(-1)).err(),
        Some(ReplyError::InvalidHeadampIndex(-1))
    );
    assert_eq!(read_headamp_index(&reply(vec![])).err(), Some(ReplyError::MissingArgument(0)));
    let wrong = reply(vec![text("0")]);
    assert_eq!(read_headamp_index(&wrong).err(), Some(ReplyError::ExpectedInt(&text("0"))));
}

#[test]
fn floats_come_one_by_one() {
    let blob = blob_of(2, &[1.0, -2.5], &[]);
    let mut floats = get_float_iter_from_blob(&blob).ok().unwrap();
    assert_eq!(floats.next(), Some(Ok(1.0f32.to_bits())));
    assert_eq!(floats.next(), Some(Ok((-2.5f32).to_bits())));
    assert_eq!(floats.next(), None);
    assert_eq!(floats.next(), None);
}

#[test]
fn bytes_after_the_announced_floats_are_ignored() {
    let blob = blob_of(1, &[1.0, 2.0], &[7]);
    let mut floats = get_float_iter_from_blob(&blob).ok().unwrap();
    assert_eq!(floats.next(), Some(Ok(1.0f32.to_bits())));
    assert_eq!(floats.next(), None);
}

#[test]
fn a_cut_float_is_an_error_for_good() {
    let blob = blob_of(3, &[1.0], &[0, 0, 0]);
    let mut floats = get_float_iter_from_blob(&blob).ok().unwrap();
    assert_eq!(floats.next(), Some(Ok(1.0f32.to_bits())));
    for _ in 0..5 {
        assert_eq!(floats.next(), Some(Err(ReplyError::TruncatedFloat)));
    }
}

#[test]
fn a_blob_needs_a_count() {
    for len in 0..4usize {
        assert_eq!(
            get_float_iter_from_blob(&vec![0; len]).err(),
            Some(ReplyError::MissingFloatCount)
        );
    }
}

#[test]
fn blobs_agree_with_nom() {
    let floats = ramp(5);
    let blob = blob_of(0x0102_0304, &floats, &[1, 2, 3]);
    let (mut rest, _) =
        nom::number::complete::le_u32::<&[u8], nom::error::Error<&[u8]>>(&blob).unwrap();
    let mut read = get_float_iter_from_blob(&blob).ok().unwrap();
    while let Ok((r, float)) =
        nom::number::complete::le_f32::<&[u8], nom::error::Error<&[u8]>>(rest)
    {
        assert_eq!(read.next(), Some(Ok(float.to_bits())));
        rest = r;
    }
    assert_eq!(read.next(), Some(Err(ReplyError::TruncatedFloat)));
}

#[test]
fn an_array_is_filled_from_the_front() {
    let blob = blob_of(3, &[1.0, 2.0, 3.0], &[]);
    let mut floats = get_float_iter_from_blob(&blob).ok().unwrap();
    let mut array = [0u32; 2];
    assert_eq!(collect_array(&mut floats, &mut array), Ok(()));
    assert_eq!(array, [1.0f32.to_bits(), 2.0f32.to_bits()]);
    assert_eq!(floats.next(), Some(Ok(3.0f32.to_bits())));
}

#[test]
fn an_array_keeps_what_came_before_an_error() {
    let blob = blob_of(1, &[1.0], &[]);
    let mut array = [9u32; 3];
    assert_eq!(
        collect_array(&mut get_float_iter_from_blob(&blob).ok().unwrap(), &mut array),
        Err(CollectError::Missing(1))
    );
    assert_eq!(array, [1.0f32.to_bits(), 9, 9]);

    let cut = blob_of(2, &[1.0], &[0]);
    assert_eq!(
        collect_array(&mut get_float_iter_from_blob(&cut).ok().unwrap(), &mut array),
        Err(CollectError::Value(ReplyError::TruncatedFloat))
    );
}

#[test]
fn a_source_is_read_no_further_than_needed() {
    let blob = blob_of(5, &[1.0, 2.0, 3.0], &[0]);
    let mut floats = get_float_iter_from_blob(&blob).ok().unwrap();
    assert_eq!(collect_array(&mut floats, &mut []), Ok(()));
    let mut first = [0u32; 1];
    assert_eq!(collect_array(&mut floats, &mut first), Ok(()));
    assert_eq!(first, [1.0f32.to_bits()]);
    let mut rest = [0u32; 2];
    assert_eq!(collect_array(&mut floats, &mut rest), Ok(()));
    assert_eq!(rest, [2.0f32.to_bits(), 3.0f32.to_bits()]);
    assert_eq!(floats.next(), Some(Err(ReplyError::TruncatedFloat)));
}

#[test]
fn meters_read_back_from_their_blob() {
    for len in [32usize, 33, 96] {
        let floats = ramp(len);
        let message = reply(vec![Argument::Blob(blob_of(len as u32, &floats, &[5, 5]))]);
        let meters = read_meters(&message).unwrap();
        let expected: Vec<u32> = floats[..32].iter().map(|f| f.to_bits()).collect();
        assert_eq!(meters.to_vec(), expected);
    }
}

#[test]
fn meters_need_enough_floats() {
    let announced = reply(vec![Argument::Blob(blob_of(31, &ramp(40), &[]))]);
    assert_eq!(read_meters(&announced), Err(ReplyError::MissingFloat(31)));
    let cut = reply(vec![Argument::Blob(blob_of(32, &ramp(31), &[0, 0, 0]))]);
    assert_eq!(read_meters(&cut), Err(ReplyError::TruncatedFloat));
    let empty = reply(vec![Argument::Blob(vec![1, 0, 0])]);
    assert_eq!(read_meters(&empty), Err(ReplyError::MissingFloatCount));
}

#[test]
fn meters_need_a_blob_first() {
    assert_eq!(read_meters(&reply(vec![])), Err(ReplyError::ExpectedBlob));
    let later = reply(vec![Argument::Int(1), Argument::Blob(blob_of(32, &ramp(32), &[]))]);
    assert_eq!(read_meters(&later), Err(ReplyError::ExpectedBlob));
}

#[test]
fn an_average_takes_each_reading_once() {
    let console = X32::new(());
    let mut step = console.meters_averaged(3);
    let mut taken: Vec<u32> = vec![];
    let mut reading = 0u32;
    let divisor = loop {
        step = match step {
            AverageStep::Read(averaging) => {
                reading += 1;
                let (meters, next) = averaging.read::<()>(Ok([reading; 32])).ok().unwrap();
                taken.push(meters[31]);
                next
            }
            AverageStep::Divide(frames) => break frames,
        };
    };
    assert_eq!(taken, vec![1, 2, 3]);
    assert_eq!(divisor, 3);
}

#[test]
fn an_average_over_nothing_divides_at_once() {
    assert!(matches!(X32::new(()).meters_averaged(0), AverageStep::Divide(0)));
}

#[test]
fn a_failed_reading_ends_the_average() {
    match X32::new(()).meters_averaged(2) {
        AverageStep::Read(averaging) => {
            assert_eq!(averaging.read(Err("lagged")).err(), Some("lagged"))
        }
        AverageStep::Divide(_) => panic!("expected a reading"),
    }
}

#[test]
fn errors_say_what_is_wrong() {
    let arg = Argument::Int(1);
    for (error, expected) in [
        (ReplyError::MissingArgument(12), "Expected arg in position 12"),
        (ReplyError::ExpectedString(&arg), "Expected string"),
        (ReplyError::ExpectedFloat(&arg), "Expected float"),
        (ReplyError::ExpectedInt(&arg), "Expected float"),
        (ReplyError::ExpectedBlob, "Expected blob in first argument of /meters reply"),
        (ReplyError::InvalidHeadampIndex(-7), "Invalid headamp index: -7"),
        (ReplyError::InvalidHeadampIndex(i32::MIN), "Invalid headamp index: -2147483648"),
        (ReplyError::MissingFloatCount, "Failed to get num floats"),
        (ReplyError::MissingFloat(31), "Could not get index 31 from values"),
        (ReplyError::TruncatedFloat, "Failed to parse float"),
    ] {
        assert_eq!(error.text(), expected);
    }
}

#[test]
fn cut_bytes_are_what_was_left_to_parse() {
    for (blob, expected) in [
        (vec![], vec![]),
        (vec![1, 2, 3], vec![1, 2, 3]),
        (blob_of(1, &[], &[]), vec![]),
        (blob_of(3, &[1.0], &[4, 5]), vec![4, 5]),
    ] {
        assert_eq!(cut_bytes(&blob).to_vec(), expected);
    }
}
