//! The adjustment mini-language: `<channel><op><value>` and its shorthands.
use vstd::prelude::*;

use crate::args::is_digit_char;
use crate::text::{find_first_in, first_index_in, is_digit};

verus! {

/// What an adjustment does with its value.
#[derive(Clone, Copy, Debug, PartialEq, Eq, Structural)]
pub enum Op {
    Assign,
    Inc,
    Dec,
}

/// The level an adjustment changes.
#[derive(Clone, Copy, Debug, PartialEq, Eq, Structural)]
pub enum Channel {
    Master,
    All,
    N(u32),
}

/// Where an adjustment's value comes from: a percentage, or a level as it
/// stands when the adjustment is applied.
#[derive(Clone, Copy, Debug, PartialEq, Eq, Structural)]
pub enum Value {
    N(u8),
    MasterChannel,
    Channel(u32),
}

/// One parsed adjustment.
#[derive(Clone, Copy, Debug, PartialEq, Eq, Structural)]
pub struct Adjust {
    pub op: Op,
    pub chan: Channel,
    pub val: Value,
}

/// Why an adjustment string was rejected.
#[derive(Clone, Copy, Debug, PartialEq, Eq, Structural)]
pub enum ParseError {
    /// Nothing where a value belongs.
    MissingValue,
    /// A number above 100 where a percentage belongs.
    ValueOutOfRange,
    /// Something that is not a number where a percentage belongs.
    InvalidValue,
    /// A `c` with no channel number after it.
    MissingChannelNumber,
    /// A channel number after `c` that is not a number or does not fit in 32
    /// bits.
    InvalidChannelNumber,
    /// A channel written in digits whose number does not fit in 32 bits.
    ChannelNumberTooLarge,
    /// A channel that is none of the accepted forms.
    InvalidChannel,
}

impl ParseError {
    /// A human-readable description, one for each kind of error.
    pub fn message(&self) -> (r: &'static str)
        ensures
            *self == ParseError::MissingValue ==> r@ == "missing a value"@,
            *self == ParseError::ValueOutOfRange ==> r@
                == "the value must be an integer from 0 to 100"@,
            *self == ParseError::InvalidValue ==> r@
                == "the value must be an integer from 0 to 100, 'L', 'R', 'M' or 'c' followed by a channel number"@,
            *self == ParseError::MissingChannelNumber ==> r@ == "missing a channel number after 'c'"@,
            *self == ParseError::InvalidChannelNumber ==> r@
                == "expected an channel number as an integer from 0 to 2^32 after 'c'"@,
            *self == ParseError::ChannelNumberTooLarge ==> r@
                == "the channel number must be an integer between 0 and 2^32"@,
            *self == ParseError::InvalidChannel ==> r@
                == "the channel value must be one of 'L', 'R', 'A', 'M' or an integer between 0 and 2^32"@,
    {
        match self {
            ParseError::MissingValue => "missing a value",
            ParseError::ValueOutOfRange => "the value must be an integer from 0 to 100",
            ParseError::InvalidValue => "the value must be an integer from 0 to 100, 'L', 'R', 'M' or 'c' followed by a channel number",
            ParseError::MissingChannelNumber => "missing a channel number after 'c'",
            ParseError::InvalidChannelNumber => "expected an channel number as an integer from 0 to 2^32 after 'c'",
            ParseError::ChannelNumberTooLarge => "the channel number must be an integer between 0 and 2^32",
            ParseError::InvalidChannel => "the channel value must be one of 'L', 'R', 'A', 'M' or an integer between 0 and 2^32",
        }
    }
}

/// The numeric value of a decimal digit.
pub open spec fn digit_of(c: char) -> nat {
    ((c as u32) - ('0' as u32)) as nat
}

/// The value of a string of decimal digits.
pub open spec fn digits_value(d: Seq<char>) -> nat
    decreases d.len(),
{
    if d.len() == 0 {
        0
    } else {
        digits_value(d.drop_last()) * 10 + digit_of(d.last())
    }
}

/// The digits of an unsigned decimal: the text after an optional leading `+`.
pub open spec fn unsigned_digits(s: Seq<char>) -> Seq<char> {
    if s.len() > 0 && s[0] == '+' {
        s.drop_first()
    } else {
        s
    }
}

/// An unsigned decimal: an optional `+`, then one or more digits.
pub open spec fn is_number(s: Seq<char>) -> bool {
    let d = unsigned_digits(s);
    d.len() > 0 && forall|i: int| 0 <= i < d.len() ==> is_digit(#[trigger] d[i])
}

/// The value of an unsigned decimal.
pub open spec fn number_value(s: Seq<char>) -> nat {
    digits_value(unsigned_digits(s))
}

/// `s` is the one character `c`, in either case.
pub open spec fn is_letter(s: Seq<char>, lower: char, upper: char) -> bool {
    s == seq![lower] || s == seq![upper]
}

/// `c` is the letter given in its two cases.
pub open spec fn is_either(c: char, lower: char, upper: char) -> bool {
    c == lower || c == upper
}

/// A channel number, as written after `c`.
pub open spec fn channel_number_spec(s: Seq<char>) -> Result<u32, ParseError> {
    if s.len() == 0 {
        Err(ParseError::MissingChannelNumber)
    } else if !is_number(s) || number_value(s) > u32::MAX {
        Err(ParseError::InvalidChannelNumber)
    } else {
        Ok(number_value(s) as u32)
    }
}

/// The meaning of a value expression.
pub open spec fn value_spec(s: Seq<char>) -> Result<Value, ParseError> {
    if is_letter(s, 'm', 'M') {
        Ok(Value::MasterChannel)
    } else if is_letter(s, 'l', 'L') {
        Ok(Value::Channel(0))
    } else if is_letter(s, 'r', 'R') {
        Ok(Value::Channel(1))
    } else if s.len() > 0 && is_either(s[0], 'c', 'C') {
        match channel_number_spec(s.drop_first()) {
            Ok(n) => Ok(Value::Channel(n)),
            Err(e) => Err(e),
        }
    } else if s.len() == 0 {
        Err(ParseError::MissingValue)
    } else if !is_number(s) {
        Err(ParseError::InvalidValue)
    } else if number_value(s) > 100 {
        Err(ParseError::ValueOutOfRange)
    } else {
        Ok(Value::N(number_value(s) as u8))
    }
}

/// The meaning of a channel expression, the text before the operator. A
/// channel number is written in digits alone, with no sign.
pub open spec fn channel_spec(s: Seq<char>) -> Result<Channel, ParseError> {
    if s.len() == 0 || is_letter(s, 'm', 'M') {
        Ok(Channel::Master)
    } else if is_letter(s, 'l', 'L') {
        Ok(Channel::N(0))
    } else if is_letter(s, 'r', 'R') {
        Ok(Channel::N(1))
    } else if is_letter(s, 'a', 'A') {
        Ok(Channel::All)
    } else if is_either(s[0], 'c', 'C') {
        let d = s.drop_first();
        if d.len() > 0 && !is_digit(d[0]) {
            Err(ParseError::InvalidChannelNumber)
        } else {
            match channel_number_spec(d) {
                Ok(n) => Ok(Channel::N(n)),
                Err(e) => Err(e),
            }
        }
    } else if is_digit(s[0]) && is_number(s) {
        if number_value(s) > u32::MAX {
            Err(ParseError::ChannelNumberTooLarge)
        } else {
            Ok(Channel::N(number_value(s) as u32))
        }
    } else {
        Err(ParseError::InvalidChannel)
    }
}

/// The operator characters.
pub open spec fn op_chars() -> Seq<char> {
    seq!['+', '-', '=']
}

/// The operation an operator character selects.
pub open spec fn op_of(c: char) -> Op {
    if c == '+' {
        Op::Inc
    } else if c == '-' {
        Op::Dec
    } else {
        Op::Assign
    }
}

/// The channel named by the first letter of a shorthand, and the text left
/// for its value.
pub open spec fn shorthand_channel(s: Seq<char>) -> (Channel, Seq<char>) {
    if s.len() > 0 && is_either(s[0], 'l', 'L') {
        (Channel::N(0), s.drop_first())
    } else if s.len() > 0 && is_either(s[0], 'r', 'R') {
        (Channel::N(1), s.drop_first())
    } else if s.len() > 0 && is_either(s[0], 'a', 'A') {
        (Channel::All, s.drop_first())
    } else if s.len() > 0 && is_either(s[0], 'm', 'M') {
        (Channel::Master, s.drop_first())
    } else {
        (Channel::Master, s)
    }
}

/// The meaning of a whole adjustment string. It splits at the first operator
/// character; with none, it is a shorthand that sets a level.
pub open spec fn adjust_spec(s: Seq<char>) -> Result<Adjust, ParseError> {
    let i = first_index_in(s, op_chars());
    if i >= s.len() {
        let (chan, rest) = shorthand_channel(s);
        match value_spec(rest) {
            Ok(val) => Ok(Adjust { op: Op::Assign, chan, val }),
            Err(e) => Err(e),
        }
    } else {
        match channel_spec(s.subrange(0, i)) {
            Err(e) => Err(e),
            Ok(chan) => match value_spec(s.subrange(i + 1, s.len() as int)) {
                Err(e) => Err(e),
                Ok(val) => Ok(Adjust { op: op_of(s[i]), chan, val }),
            },
        }
    }
}

/// How a decimal reads against a bound.
enum Number {
    Empty,
    Invalid,
    TooLarge,
    Within(u32),
}

/// Reads `s` as an unsigned decimal no larger than `limit`.
fn parse_number(s: &str, limit: u32) -> (r: Number)
    ensures
        match r {
            Number::Empty => s@.len() == 0,
            Number::Invalid => s@.len() > 0 && !is_number(s@),
            Number::TooLarge => is_number(s@) && number_value(s@) > limit,
            Number::Within(v) => is_number(s@) && number_value(s@) == v && v <= limit,
        },
{
    let n = s.unicode_len();
    if n == 0 {
        return Number::Empty;
    }
    let mut start: usize = 0;
    if s.get_char(0) == '+' {
        start = 1;
    }
    let ghost d = unsigned_digits(s@);
    proof {
        assert(d =~= s@.subrange(start as int, n as int));
    }
    if start >= n {
        return Number::Invalid;
    }
    let cap: u64 = limit as u64 + 1;
    let mut acc: u64 = 0;
    let mut i: usize = start;
    while i < n
        invariant
            n == s@.len(),
            start <= i <= n,
            d == s@.subrange(start as int, n as int),
            d == unsigned_digits(s@),
            cap == limit as u64 + 1,
            forall|j: int| start <= j < i ==> is_digit(#[trigger] s@[j]),
            acc == if digits_value(s@.subrange(start as int, i as int)) >= cap {
                cap as nat
            } else {
                digits_value(s@.subrange(start as int, i as int))
            },
        decreases n - i,
    {
        let c = s.get_char(i);
        if !is_digit_char(c) {
            proof {
                assert(d[i - start] == c);
            }
            return Number::Invalid;
        }
        let dv = (c as u32 - '0' as u32) as u64;
        let ghost before = digits_value(s@.subrange(start as int, i as int));
        proof {
            let next = s@.subrange(start as int, i + 1);
            assert(next.drop_last() =~= s@.subrange(start as int, i as int));
            assert(next.last() == c);
            assert(digits_value(next) == before * 10 + dv);
        }
        if acc < cap {
            acc = acc * 10 + dv;
            if acc > cap {
                acc = cap;
            }
        }
        i = i + 1;
    }
    proof {
        assert(s@.subrange(start as int, n as int) == d);
        assert forall|j: int| 0 <= j < d.len() implies is_digit(#[trigger] d[j]) by {
            assert(d[j] == s@[start + j]);
        }
    }
    if acc >= cap {
        Number::TooLarge
    } else {
        Number::Within(acc as u32)
    }
}

/// A one-character string is a given letter exactly when its character is.
proof fn lemma_letter(c: char, lower: char, upper: char)
    ensures
        is_letter(seq![c], lower, upper) == is_either(c, lower, upper),
{
    assert(seq![c][0] == c);
    assert(seq![lower][0] == lower);
    assert(seq![upper][0] == upper);
}

/// Facts on the letters that a one-character expression may be.
proof fn lemma_letters(c: char)
    ensures
        is_letter(seq![c], 'm', 'M') == is_either(c, 'm', 'M'),
        is_letter(seq![c], 'l', 'L') == is_either(c, 'l', 'L'),
        is_letter(seq![c], 'r', 'R') == is_either(c, 'r', 'R'),
        is_letter(seq![c], 'a', 'A') == is_either(c, 'a', 'A'),
{
    lemma_letter(c, 'm', 'M');
    lemma_letter(c, 'l', 'L');
    lemma_letter(c, 'r', 'R');
    lemma_letter(c, 'a', 'A');
}

/// The one character of `s`, when it has exactly one.
fn single_char(s: &str) -> (r: Option<char>)
    ensures
        match r {
            Some(c) => s@ == seq![c],
            None => s@.len() != 1,
        },
{
    if s.unicode_len() == 1 {
        let c = s.get_char(0);
        assert(s@ =~= seq![c]);
        Some(c)
    } else {
        None
    }
}

/// Reads a channel number as written after `c`.
fn parse_channel_number(s: &str) -> (r: Result<u32, ParseError>)
    ensures
        r == channel_number_spec(s@),
{
    match parse_number(s, u32::MAX) {
        Number::Empty => Err(ParseError::MissingChannelNumber),
        Number::Invalid => Err(ParseError::InvalidChannelNumber),
        Number::TooLarge => Err(ParseError::InvalidChannelNumber),
        Number::Within(v) => Ok(v),
    }
}

impl Value {
    /// Reads a value expression.
    pub fn parse(s: &str) -> (r: Result<Value, ParseError>)
        ensures
            r == value_spec(s@),
    {
        match single_char(s) {
            Some(c) => {
                proof {
                    lemma_letters(c);
                }
                if c == 'm' || c == 'M' {
                    return Ok(Value::MasterChannel);
                } else if c == 'l' || c == 'L' {
                    return Ok(Value::Channel(0));
                } else if c == 'r' || c == 'R' {
                    return Ok(Value::Channel(1));
                }
            },
            None => {},
        }
        let n = s.unicode_len();
        if n > 0 && (s.get_char(0) == 'c' || s.get_char(0) == 'C') {
            assert(s@.subrange(1, n as int) =~= s@.drop_first());
            return match parse_channel_number(s.substring_char(1, n)) {
                Ok(c) => Ok(Value::Channel(c)),
                Err(e) => Err(e),
            };
        }
        match parse_number(s, 100) {
            Number::Empty => Err(ParseError::MissingValue),
            Number::Invalid => Err(ParseError::InvalidValue),
            Number::TooLarge => Err(ParseError::ValueOutOfRange),
            Number::Within(v) => Ok(Value::N(v as u8)),
        }
    }
}

impl Channel {
    /// Reads a channel expression.
    pub fn parse(s: &str) -> (r: Result<Channel, ParseError>)
        ensures
            r == channel_spec(s@),
    {
        let n = s.unicode_len();
        if n == 0 {
            return Ok(Channel::Master);
        }
        match single_char(s) {
            Some(c) => {
                proof {
                    lemma_letters(c);
                }
                if c == 'm' || c == 'M' {
                    return Ok(Channel::Master);
                } else if c == 'l' || c == 'L' {
                    return Ok(Channel::N(0));
                } else if c == 'r' || c == 'R' {
                    return Ok(Channel::N(1));
                } else if c == 'a' || c == 'A' {
                    return Ok(Channel::All);
                }
            },
            None => {},
        }
        if s.get_char(0) == 'c' || s.get_char(0) == 'C' {
            assert(s@.subrange(1, n as int) =~= s@.drop_first());
            if n > 1 && !is_digit_char(s.get_char(1)) {
                assert(s@.drop_first()[0] == s@[1]);
                return Err(ParseError::InvalidChannelNumber);
            }
            return match parse_channel_number(s.substring_char(1, n)) {
                Ok(c) => Ok(Channel::N(c)),
                Err(e) => Err(e),
            };
        }
        if !is_digit_char(s.get_char(0)) {
            return Err(ParseError::InvalidChannel);
        }
        match parse_number(s, u32::MAX) {
            Number::Empty => Err(ParseError::InvalidChannel),
            Number::Invalid => Err(ParseError::InvalidChannel),
            Number::TooLarge => Err(ParseError::ChannelNumberTooLarge),
            Number::Within(v) => Ok(Channel::N(v)),
        }
    }
}

impl Adjust {
    /// Reads one adjustment.
    pub fn parse(s: &str) -> (r: Result<Adjust, ParseError>)
        ensures
            r == adjust_spec(s@),
    {
        let n = s.unicode_len();
        let i = find_first_in(s, "+-=");
        proof {
            reveal_strlit("+-=");
            assert("+-="@ =~= op_chars());
        }
        if i >= n {
            let mut chan = Channel::Master;
            let mut start: usize = 0;
            if n > 0 {
                let c = s.get_char(0);
                if c == 'l' || c == 'L' {
                    chan = Channel::N(0);
                    start = 1;
                } else if c == 'r' || c == 'R' {
                    chan = Channel::N(1);
                    start = 1;
                } else if c == 'a' || c == 'A' {
                    chan = Channel::All;
                    start = 1;
                } else if c == 'm' || c == 'M' {
                    start = 1;
                }
            }
            let rest = s.substring_char(start, n);
            proof {
                if start == 1 {
                    assert(rest@ =~= s@.drop_first());
                } else {
                    assert(rest@ =~= s@);
                }
            }
            return match Value::parse(rest) {
                Ok(val) => Ok(Adjust { op: Op::Assign, chan, val }),
                Err(e) => Err(e),
            };
        }
        let c = s.get_char(i);
        let op = if c == '+' {
            Op::Inc
        } else if c == '-' {
            Op::Dec
        } else {
            Op::Assign
        };
        let chan = match Channel::parse(s.substring_char(0, i)) {
            Ok(ch) => ch,
            Err(e) => {
                return Err(e);
            },
        };
        let val = match Value::parse(s.substring_char(i + 1, n)) {
            Ok(v) => v,
            Err(e) => {
                return Err(e);
            },
        };
        Ok(Adjust { op, chan, val })
    }
}

} // verus!
