//! Decimal text of a number, plain or padded with leading zeros.

use vstd::prelude::*;

verus! {

/// The character that stands for a digit below ten.
pub open spec fn digit(d: nat) -> char {
    (48 + d) as char
}

/// A number in decimal, without leading zeros.
pub open spec fn decimal(n: nat) -> Seq<char>
    decreases n,
{
    if n < 10 {
        seq![digit(n)]
    } else {
        decimal(n / 10).push(digit(n % 10))
    }
}

/// A number in decimal, with a minus sign where it is negative.
pub open spec fn signed(n: int) -> Seq<char> {
    if n < 0 {
        seq!['-'] + decimal((-n) as nat)
    } else {
        decimal(n as nat)
    }
}

/// `len` zero digits.
pub open spec fn zeros(len: nat) -> Seq<char> {
    Seq::new(len, |i: int| '0')
}

/// A number in decimal, with as many leading zeros as it takes to be `width` characters long.
pub open spec fn padded(n: nat, width: nat) -> Seq<char> {
    if decimal(n).len() < width {
        zeros((width - decimal(n).len()) as nat) + decimal(n)
    } else {
        decimal(n)
    }
}

/// The number that a run of digits stands for.
pub open spec fn number(text: Seq<char>) -> int
    decreases text.len(),
{
    if text.len() == 0 {
        0
    } else {
        number(text.drop_last()) * 10 + (text.last() as int - 48)
    }
}

/// The text of one digit.
fn digit_text(d: usize) -> (text: &'static str)
    requires
        d < 10,
    ensures
        text@ == seq![digit(d as nat)],
{
    proof {
        reveal_strlit("0");
        reveal_strlit("1");
        reveal_strlit("2");
        reveal_strlit("3");
        reveal_strlit("4");
        reveal_strlit("5");
        reveal_strlit("6");
        reveal_strlit("7");
        reveal_strlit("8");
        reveal_strlit("9");
    }
    match d {
        0 => "0",
        1 => "1",
        2 => "2",
        3 => "3",
        4 => "4",
        5 => "5",
        6 => "6",
        7 => "7",
        8 => "8",
        _ => "9",
    }
}

/// Writes a number in decimal.
pub fn decimal_text(n: usize) -> (text: String)
    ensures
        text@ == decimal(n as nat),
    decreases n,
{
    if n < 10 {
        digit_text(n).to_owned()
    } else {
        let mut text = decimal_text(n / 10);
        text.append(digit_text(n % 10));
        assert(text@ == decimal(n as nat));
        text
    }
}

/// Writes a number in decimal, with a minus sign where it is negative.
pub fn signed_text(n: i32) -> (text: String)
    ensures
        text@ == signed(n as int),
{
    if n < 0 {
        proof {
            reveal_strlit("-");
        }
        let size: i64 = -(n as i64);
        let mut text = "-".to_owned();
        text.append(decimal_text(size as usize).as_str());
        assert(text@ == signed(n as int));
        text
    } else {
        decimal_text(n as usize)
    }
}

/// The number of digits that a number takes in decimal.
fn decimal_len(n: usize) -> (len: usize)
    ensures
        len == decimal(n as nat).len(),
        1 <= len <= n + 1,
    decreases n,
{
    if n < 10 {
        1
    } else {
        decimal_len(n / 10) + 1
    }
}

/// Writes a number in decimal, with leading zeros up to `width` characters.
pub fn padded_text(n: usize, width: usize) -> (text: String)
    ensures
        text@ == padded(n as nat, width as nat),
{
    let digits: usize = decimal_len(n);
    let mut text = String::new();
    let mut len: usize = digits;
    proof {
        reveal_strlit("0");
    }
    while len < width
        invariant
            digits <= len,
            digits <= width ==> len <= width,
            digits > width ==> len == digits,
            text@ == zeros((len - digits) as nat),
            "0"@ == seq!['0'],
        decreases width - len,
    {
        text.append("0");
        len = len + 1;
        assert(text@ == zeros((len - digits) as nat));
    }
    text.append(decimal_text(n).as_str());
    assert(text@ == padded(n as nat, width as nat));
    text
}

/// A number's decimal text reads back as the number.
proof fn lemma_decimal_number(n: nat)
    ensures
        number(decimal(n)) == n,
    decreases n,
{
    if n < 10 {
        assert(decimal(n).drop_last() == Seq::<char>::empty());
        assert(number(decimal(n).drop_last()) == 0);
    } else {
        lemma_decimal_number(n / 10);
        assert(decimal(n).drop_last() == decimal(n / 10));
    }
}

/// Leading zeros do not change the number that a text stands for.
proof fn lemma_leading_zeros(len: nat, text: Seq<char>)
    ensures
        number(zeros(len) + text) == number(text),
    decreases len + text.len(),
{
    let whole = zeros(len) + text;
    if text.len() > 0 {
        assert(whole.drop_last() == zeros(len) + text.drop_last());
        lemma_leading_zeros(len, text.drop_last());
    } else if len > 0 {
        assert(whole.drop_last() == zeros((len - 1) as nat) + text);
        lemma_leading_zeros((len - 1) as nat, text);
    }
}

/// A number's decimal text is made of digits.
pub proof fn lemma_decimal_digits(n: nat)
    ensures
        forall|i: int|
            0 <= i < decimal(n).len() ==> '0' <= #[trigger] decimal(n)[i] && decimal(n)[i] <= '9',
    decreases n,
{
    if n >= 10 {
        lemma_decimal_digits(n / 10);
        assert forall|i: int| 0 <= i < decimal(n).len() implies '0' <= #[trigger] decimal(n)[i]
            && decimal(n)[i] <= '9' by {
            if i < decimal(n / 10).len() {
                assert(decimal(n)[i] == decimal(n / 10)[i]);
            }
        }
    }
}

/// A number's padded text is made of digits.
pub proof fn lemma_padded_digits(n: nat, width: nat)
    ensures
        forall|i: int|
            0 <= i < padded(n, width).len() ==> '0' <= #[trigger] padded(n, width)[i] && padded(
                n,
                width,
            )[i] <= '9',
{
    lemma_decimal_digits(n);
}

/// The padded text of a number reads back as the number, whatever the width.
pub proof fn law_padded_reads_back(n: nat, width: nat)
    ensures
        number(padded(n, width)) == n,
{
    lemma_decimal_number(n);
    if decimal(n).len() < width {
        lemma_leading_zeros((width - decimal(n).len()) as nat, decimal(n));
    }
}

/// The padded text of a number is never shorter than the width, and is exactly as long where
/// the number has no more digits than that.
pub proof fn law_padded_width(n: nat, width: nat)
    ensures
        padded(n, width).len() >= width,
        decimal(n).len() <= width ==> padded(n, width).len() == width,
{
}

} // verus!
