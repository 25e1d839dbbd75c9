use bounded_parse::thing::{ParseError, Thing};

#[test]
#[should_panic]
fn test_thing_try_from_invalid_str() {
    Thing::try_from("foo").unwrap();
}

#[test]
#[should_panic]
fn test_thing_try_from_empty_str() {
    Thing::try_from(" ").unwrap();
}

#[test]
fn test_thing_try_from() {
    let tests: &[(&str, Result<Thing, ParseError>)] = &[
        ("", Err(ParseError::EmptyInput)),
        ("not a number", Err(ParseError::InvalidDigit)),
        ("     ", Err(ParseError::InvalidDigit)),
        ("123aaa", Err(ParseError::InvalidDigit)),
        ("a123", Err(ParseError::InvalidDigit)),
        ("\"", Err(ParseError::InvalidDigit)),
        (".", Err(ParseError::InvalidDigit)),
        ("0", Ok(Thing { number: 0 })),
        ("1", Ok(Thing { number: 1 })),
        ("254", Ok(Thing { number: 254 })),
        ("255", Ok(Thing { number: 255 })),
        ("256", Err(ParseError::Overflow)),
    ];

    for (i, (input, expected)) in tests.iter().enumerate() {
        let result = Thing::try_from(input);
        assert_eq!(result, *expected, "test[{}]: {:?}", i, input);
    }
}

#[test]
fn round_trip_every_value() {
    for n in 0..=255u16 {
        let s = format!("{}", n);
        assert_eq!(Thing::try_from(&s), Ok(Thing { number: n as u8 }));
    }
}

#[test]
fn leading_zeros_parse() {
    assert_eq!(Thing::try_from("007"), Ok(Thing { number: 7 }));
    assert_eq!(Thing::try_from("000"), Ok(Thing { number: 0 }));
    assert_eq!(Thing::try_from("0000000000255"), Ok(Thing { number: 255 }));
}

#[test]
fn empty_input_fails() {
    assert_eq!(Thing::try_from(""), Err(ParseError::EmptyInput));
}

#[test]
fn whitespace_and_signs_fail() {
    assert_eq!(Thing::try_from("   "), Err(ParseError::InvalidDigit));
    assert_eq!(Thing::try_from(" 5"), Err(ParseError::InvalidDigit));
    assert_eq!(Thing::try_from("5 "), Err(ParseError::InvalidDigit));
    assert_eq!(Thing::try_from("\t5"), Err(ParseError::InvalidDigit));
    assert_eq!(Thing::try_from("+5"), Err(ParseError::InvalidDigit));
    assert_eq!(Thing::try_from("-5"), Err(ParseError::InvalidDigit));
    assert_eq!(Thing::try_from("0x10"), Err(ParseError::InvalidDigit));
}

#[test]
fn non_ascii_digits_fail() {
    // A full-width digit five and a Devanagari digit five are not ASCII digits.
    assert_eq!(Thing::try_from("\u{FF15}"), Err(ParseError::InvalidDigit));
    assert_eq!(Thing::try_from("2\u{0967}5"), Err(ParseError::InvalidDigit));
}

#[test]
fn embedded_non_digit_beats_overflow() {
    // The whole input is scanned for digits before the range is judged.
    assert_eq!(Thing::try_from("9999a"), Err(ParseError::InvalidDigit));
}

#[test]
fn overflow_fails() {
    assert_eq!(Thing::try_from("256"), Err(ParseError::Overflow));
    assert_eq!(Thing::try_from("1000"), Err(ParseError::Overflow));
    assert_eq!(
        Thing::try_from("99999999999999999999"),
        Err(ParseError::Overflow)
    );
}

#[test]
fn default_holds_zero() {
    assert_eq!(Thing::default(), Thing { number: 0 });
}
