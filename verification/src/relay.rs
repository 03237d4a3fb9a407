//! Messages between the program and its relay, and the frames that carry
//! them: the length of the message in decimal digits, a line feed, and the
//! message.

use vstd::prelude::*;

use crate::decimal::all_digits;
use crate::decimal::decimal;
use crate::decimal::decimal_of;
use crate::decimal::digit_char;
use crate::decimal::is_digit;
use crate::decimal::number_of;
use crate::decimal::parse_decimal;
use crate::decimal::parsed_number;
use crate::error::Error;

verus! {

/// What the relay sends to the program.
#[derive(Debug, Clone, PartialEq, Eq)]
pub enum DaemonMsg {
    Heartbeat,
    Token(String),
    Title(String),
    Summary(String),
    Error(String),
}

impl DaemonMsg {
    /// The message that reports a failure: it holds the failure as it is
    /// shown.
    pub fn from_error(value: &Error) -> (m: DaemonMsg)
        ensures
            m matches DaemonMsg::Error(t) && t@ == value.preamble() + value.detail(),
    {
        DaemonMsg::Error(value.message())
    }
}

/// The characters of a text as bytes.
pub open spec fn low_bytes(s: Seq<char>) -> Seq<u8> {
    Seq::new(s.len(), |i: int| s[i] as u8)
}

/// The bytes of a text as characters.
pub open spec fn byte_chars(s: Seq<u8>) -> Seq<char> {
    Seq::new(s.len(), |i: int| s[i] as char)
}

/// A message in its frame.
pub open spec fn framed(payload: Seq<u8>) -> Seq<u8> {
    low_bytes(decimal(payload.len())) + seq![10u8] + payload
}

/// A message in its frame.
pub fn encode(payload: &Vec<u8>) -> (r: Vec<u8>)
    ensures
        r@ == framed(payload@),
{
    let digits = decimal_of(payload.len());
    let mut out: Vec<u8> = Vec::new();
    let mut i: usize = 0;
    while i < digits.len()
        invariant
            i <= digits.len(),
            out@ == low_bytes(digits@.take(i as int)),
        decreases digits.len() - i,
    {
        let b: u8 = digits[i] as u8;
        assert(low_bytes(digits@.take(i + 1)) =~= low_bytes(digits@.take(i as int)).push(b));
        out.push(b);
        i += 1;
    }
    assert(digits@.take(digits.len() as int) == digits@);
    out.push(10u8);
    let ghost head = out@;
    let mut j: usize = 0;
    while j < payload.len()
        invariant
            j <= payload.len(),
            out@ == head + payload@.take(j as int),
        decreases payload.len() - j,
    {
        out.push(payload[j]);
        j += 1;
        assert(payload@.take(j as int) == payload@.take(j - 1).push(payload@[j - 1]));
    }
    assert(payload@.take(payload.len() as int) == payload@);
    out
}

/// The first line of a frame without the line feed at its end.
pub open spec fn header_digits(line: Seq<u8>) -> Seq<char> {
    if line.len() > 0 && line.last() == 10u8 {
        byte_chars(line.drop_last())
    } else {
        byte_chars(line)
    }
}

/// The length that the first line of a frame gives: the number that its
/// digits denote. A line that holds anything but digits before its line
/// feed, or no digit, or a number that does not fit, is refused.
pub fn decode_header(line: &Vec<u8>) -> (r: Result<usize, Error>)
    ensures
        r is Ok == parsed_number(header_digits(line@)) is Some,
        r matches Ok(n) ==> n == parsed_number(header_digits(line@))->0,
        r matches Err(e) ==> e is CommunicationError,
{
    let end: usize = if line.len() > 0 && line[line.len() - 1] == 10u8 {
        line.len() - 1
    } else {
        line.len()
    };
    let mut digits: Vec<char> = Vec::new();
    let mut i: usize = 0;
    while i < end
        invariant
            i <= end <= line.len(),
            digits@ == byte_chars(line@.take(i as int)),
        decreases end - i,
    {
        let c: char = line[i] as char;
        assert(byte_chars(line@.take(i + 1)) =~= byte_chars(line@.take(i as int)).push(c));
        digits.push(c);
        i += 1;
    }
    proof {
        if end == line.len() {
            assert(line@.take(end as int) == line@);
        } else {
            assert(line@.take(end as int) == line@.drop_last());
        }
    }
    match parse_decimal(&digits) {
        Some(n) => Ok(n),
        None => Err(Error::CommunicationError("the frame does not begin with its length".to_owned())),
    }
}

/// A number written in decimal digits is read back as itself.
pub proof fn lemma_decimal_round_trip(n: nat)
    ensures
        decimal(n).len() > 0,
        all_digits(decimal(n)),
        number_of(decimal(n)) == n,
    decreases n,
{
    if n >= 10 {
        lemma_decimal_round_trip(n / 10);
        let front = decimal(n / 10);
        let all = decimal(n);
        assert(all.drop_last() == front);
        assert(all.last() == digit_char(n % 10));
        assert(is_digit(digit_char(n % 10)));
        assert(digit_char(n % 10) as u32 - 48 == n % 10);
        assert forall|i: int| 0 <= i < all.len() implies is_digit(#[trigger] all[i]) by {
            if i < front.len() {
                assert(all[i] == front[i]);
            }
        }
    } else {
        let all = decimal(n);
        assert(all.drop_last() == Seq::<char>::empty());
        assert(all.last() == digit_char(n));
        assert(is_digit(digit_char(n)));
        assert(digit_char(n) as u32 - 48 == n);
        assert(number_of(all.drop_last()) == 0);
    }
}

} // verus!
