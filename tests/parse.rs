use wol::adjust::{Adjust, Channel, Op, ParseError, Value};

fn adj(op: Op, chan: Channel, val: Value) -> Adjust {
    Adjust { op, chan, val }
}

#[test]
fn shorthand_left_channel() {
    assert_eq!(Adjust::parse("L40"), Ok(adj(Op::Assign, Channel::N(0), Value::N(40))));
}

#[test]
fn increase_master() {
    assert_eq!(Adjust::parse("+10"), Ok(adj(Op::Inc, Channel::Master, Value::N(10))));
}

#[test]
fn decrease_right_by_master() {
    assert_eq!(Adjust::parse("R-M"), Ok(adj(Op::Dec, Channel::N(1), Value::MasterChannel)));
}

#[test]
fn set_numbered_channel() {
    assert_eq!(Adjust::parse("c2=50"), Ok(adj(Op::Assign, Channel::N(2), Value::N(50))));
    assert_eq!(Adjust::parse("3=50"), Ok(adj(Op::Assign, Channel::N(3), Value::N(50))));
}

#[test]
fn value_above_hundred_is_out_of_range() {
    assert_eq!(Adjust::parse("101"), Err(ParseError::ValueOutOfRange));
    assert_eq!(Adjust::parse("99999999999"), Err(ParseError::ValueOutOfRange));
}

#[test]
fn empty_is_missing_value() {
    assert_eq!(Adjust::parse(""), Err(ParseError::MissingValue));
    assert_eq!(Adjust::parse("L"), Err(ParseError::MissingValue));
    assert_eq!(Adjust::parse("a+"), Err(ParseError::MissingValue));
}

#[test]
fn bounds_of_percentages() {
    assert_eq!(Adjust::parse("0"), Ok(adj(Op::Assign, Channel::Master, Value::N(0))));
    assert_eq!(Adjust::parse("100"), Ok(adj(Op::Assign, Channel::Master, Value::N(100))));
    assert_eq!(Adjust::parse("=+7"), Ok(adj(Op::Assign, Channel::Master, Value::N(7))));
}

#[test]
fn not_a_number() {
    assert_eq!(Adjust::parse("x"), Err(ParseError::InvalidValue));
    assert_eq!(Adjust::parse("=-5"), Err(ParseError::InvalidValue));
    assert_eq!(Adjust::parse("=+"), Err(ParseError::InvalidValue));
}

#[test]
fn channel_references_as_values() {
    assert_eq!(Adjust::parse("a=c7"), Ok(adj(Op::Assign, Channel::All, Value::Channel(7))));
    assert_eq!(Adjust::parse("ml"), Ok(adj(Op::Assign, Channel::Master, Value::Channel(0))));
    assert_eq!(Adjust::parse("Ar"), Ok(adj(Op::Assign, Channel::All, Value::Channel(1))));
    assert_eq!(Adjust::parse("C4294967295"), Ok(adj(Op::Assign, Channel::Master, Value::Channel(4294967295))));
}

#[test]
fn channel_number_errors() {
    assert_eq!(Adjust::parse("=c"), Err(ParseError::MissingChannelNumber));
    assert_eq!(Adjust::parse("=cx"), Err(ParseError::InvalidChannelNumber));
    assert_eq!(Adjust::parse("=c4294967296"), Err(ParseError::InvalidChannelNumber));
    assert_eq!(Adjust::parse("c=5"), Err(ParseError::MissingChannelNumber));
    assert_eq!(Adjust::parse("4294967296=5"), Err(ParseError::ChannelNumberTooLarge));
    assert_eq!(Adjust::parse("cx=5"), Err(ParseError::InvalidChannelNumber));
}

#[test]
fn unknown_channel() {
    assert_eq!(Adjust::parse("x=5"), Err(ParseError::InvalidChannel));
    assert_eq!(Adjust::parse("lr+5"), Err(ParseError::InvalidChannel));
}

#[test]
fn first_operator_splits() {
    assert_eq!(Adjust::parse("l+5-3"), Err(ParseError::InvalidValue));
    assert_eq!(Adjust::parse("-5"), Ok(adj(Op::Dec, Channel::Master, Value::N(5))));
}

#[test]
fn parts_parse_alone() {
    assert_eq!(Value::parse("M"), Ok(Value::MasterChannel));
    assert_eq!(Value::parse("c12"), Ok(Value::Channel(12)));
    assert_eq!(Channel::parse(""), Ok(Channel::Master));
    assert_eq!(Channel::parse("A"), Ok(Channel::All));
    assert_eq!(Channel::parse("r"), Ok(Channel::N(1)));
}

#[test]
fn error_messages_are_distinct() {
    let all = [
        ParseError::MissingValue,
        ParseError::ValueOutOfRange,
        ParseError::InvalidValue,
        ParseError::MissingChannelNumber,
        ParseError::InvalidChannelNumber,
        ParseError::ChannelNumberTooLarge,
        ParseError::InvalidChannel,
    ];
    for (i, a) in all.iter().enumerate() {
        for b in &all[i + 1..] {
            assert_ne!(a.message(), b.message());
        }
    }
    assert_eq!(ParseError::MissingValue.message(), "missing a value");
}

#[test]
fn channel_numbers_are_digits_only() {
    assert_eq!(Channel::parse("+5"), Err(ParseError::InvalidChannel));
    assert_eq!(Channel::parse("x"), Err(ParseError::InvalidChannel));
    assert_eq!(Channel::parse("LR"), Err(ParseError::InvalidChannel));
    assert_eq!(Channel::parse("5x"), Err(ParseError::InvalidChannel));
    assert_eq!(Channel::parse("c+5"), Err(ParseError::InvalidChannelNumber));
    assert_eq!(Channel::parse("cx"), Err(ParseError::InvalidChannelNumber));
    assert_eq!(Channel::parse("c"), Err(ParseError::MissingChannelNumber));
    assert_eq!(Channel::parse("7"), Ok(Channel::N(7)));
    assert_eq!(Channel::parse("C7"), Ok(Channel::N(7)));
    assert_eq!(Value::parse("+5"), Ok(Value::N(5)));
}

#[test]
fn every_error_message() {
    assert_eq!(ParseError::ValueOutOfRange.message(), "the value must be an integer from 0 to 100");
    assert_eq!(ParseError::MissingChannelNumber.message(), "missing a channel number after 'c'");
    assert_eq!(
        ParseError::InvalidChannelNumber.message(),
        "expected an channel number as an integer from 0 to 2^32 after 'c'"
    );
    assert_eq!(
        ParseError::ChannelNumberTooLarge.message(),
        "the channel number must be an integer between 0 and 2^32"
    );
    assert_eq!(
        ParseError::InvalidValue.message(),
        "the value must be an integer from 0 to 100, 'L', 'R', 'M' or 'c' followed by a channel number"
    );
    assert_eq!(
        ParseError::InvalidChannel.message(),
        "the channel value must be one of 'L', 'R', 'A', 'M' or an integer between 0 and 2^32"
    );
}
