use x32osc::index::{ChannelIndex, HeadampIndex};
use x32osc::text::{decimal_text, padded_text, signed_text};

#[test]
fn decimal_writes_no_leading_zero() {
    assert_eq!(decimal_text(0), "0");
    assert_eq!(decimal_text(9), "9");
    assert_eq!(decimal_text(10), "10");
    assert_eq!(decimal_text(9075), "9075");
    assert_eq!(decimal_text(usize::MAX), usize::MAX.to_string());
}

#[test]
fn padding_fills_up_to_the_width() {
    assert_eq!(padded_text(7, 3), "007");
    assert_eq!(padded_text(42, 3), "042");
    assert_eq!(padded_text(127, 3), "127");
    assert_eq!(padded_text(1234, 3), "1234");
    assert_eq!(padded_text(5, 0), "5");
    assert_eq!(padded_text(0, 2), "00");
}

#[test]
fn padding_agrees_with_format() {
    for n in 0..2000usize {
        assert_eq!(padded_text(n, 3), format!("{:0>3}", n));
        assert_eq!(padded_text(n, 2), format!("{:0>2}", n));
    }
}

#[test]
fn padded_text_reads_back_as_the_number() {
    for n in 0..2000usize {
        assert_eq!(padded_text(n, 3).parse::<usize>(), Ok(n));
    }
}

#[test]
fn headamp_index_has_three_digits() {
    assert_eq!(HeadampIndex::new(0).to_string(), "000");
    assert_eq!(HeadampIndex::new(31).to_string(), "031");
    assert_eq!(HeadampIndex::new(127).to_string(), "127");
}

#[test]
fn channel_index_has_two_digits() {
    assert_eq!(ChannelIndex::new(0).to_string(), "00");
    assert_eq!(ChannelIndex::new(9).to_string(), "09");
    assert_eq!(ChannelIndex::new(100).to_string(), "100");
}

#[test]
fn channel_index_converts_to_its_number() {
    assert_eq!(usize::from(ChannelIndex::new(17)), 17);
}

#[test]
fn indices_show_their_number() {
    assert_eq!(format!("{:?}", HeadampIndex::new(3)), "HeadampIndex(3)");
    assert_eq!(format!("{:?}", ChannelIndex::new(3)), "ChannelIndex(3)");
}

#[test]
fn signed_text_agrees_with_format() {
    for n in [0, 7, -7, 10, -10, i32::MAX, i32::MIN] {
        assert_eq!(signed_text(n), format!("{n}"));
    }
}
