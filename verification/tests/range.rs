use bcut::range::{
    dec, hex, number, parse_range_pieces, Mode, NumberError, ParseRangeError, Range, RangePieces,
    Side,
};

fn parsed(s: &str) -> Result<Range, ParseRangeError> {
    s.parse::<Range>()
}

fn open_ended(s: &str, start: u64) {
    match parsed(s) {
        Ok(Range { start: got, count: None }) if got == start => (),
        x => panic!("range '{}' = '{:?}' does not match start {} to the end", s, x, start),
    }
}

fn counted(s: &str, start: u64, count: u64) {
    match parsed(s) {
        Ok(Range { start: got, count: Some(n) }) if got == start && n == count => (),
        x => panic!("range '{}' = '{:?}' does not match start {} count {}", s, x, start, count),
    }
}

fn rejected(s: &str) {
    match parsed(s) {
        Err(_) => (),
        x => panic!("range '{}' = '{:?}' does not match an error", s, x),
    }
}

#[test]
fn parse_hex() {
    assert_eq!(hex("0x0"), Ok(("", 0)));
    assert_eq!(hex("0x1234 hello"), Ok((" hello", 0x1234)));
    assert_eq!(hex("0X12"), Ok(("", 18)));
    assert!(hex("").is_err());
    assert!(hex(" 0x12").is_err());
}

#[test]
fn parse_dec() {
    assert_eq!(dec("0"), Ok(("", 0)));
    assert_eq!(dec("123"), Ok(("", 123)));
    assert_eq!(dec("123-456"), Ok(("-456", 123)));
}

#[test]
fn parse_number() {
    assert_eq!(number("0x0"), Ok(("", 0)));
    assert_eq!(number("0x1234 hello"), Ok((" hello", 0x1234)));
    assert_eq!(number("0X12"), Ok(("", 18)));
    assert!(number("").is_err());
    assert!(number(" 0x12").is_err());

    assert_eq!(number("0"), Ok(("", 0)));
    assert_eq!(number("123"), Ok(("", 123)));
    assert_eq!(number("123-456"), Ok(("-456", 123)));
}

#[test]
fn parse_range() {
    match "-".parse::<Range>() {
        Ok(Range { start: 0, count: None }) => (),
        x => panic!("range '{}' = '{:?}' does not match '{}'", "-", x, "Ok(Range { start: 0, count: None })"),
    }
    match "+".parse::<Range>() {
        Ok(Range { start: 0, count: None }) => (),
        x => panic!("range '{}' = '{:?}' does not match '{}'", "+", x, "Ok(Range { start: 0, count: None })"),
    }
    match "10-".parse::<Range>() {
        Ok(Range { start: 10, count: None }) => (),
        x => panic!("range '{}' = '{:?}' does not match '{}'", "10-", x, "Ok(Range { start: 10, count: None })"),
    }
    match "-10".parse::<Range>() {
        Ok(Range { start: 0, count: Some(11) }) => (),
        x => panic!("range '{}' = '{:?}' does not match '{}'", "-10", x, "Ok(Range { start: 0, count: Some(11) })"),
    }
    match "+20".parse::<Range>() {
        Ok(Range { start: 0, count: Some(20) }) => (),
        x => panic!("range '{}' = '{:?}' does not match '{}'", "+20", x, "Ok(Range { start: 0, count: Some(20) })"),
    }
    match "10-12".parse::<Range>() {
        Ok(Range { start: 10, count: Some(3) }) => (),
        x => panic!("range '{}' = '{:?}' does not match '{}'", "10-12", x, "Ok(Range { start: 10, count: Some(3) })"),
    }
    match "123+456".parse::<Range>() {
        Ok(Range { start: 123, count: Some(456) }) => (),
        x => panic!("range '{}' = '{:?}' does not match '{}'", "123+456", x, "Ok(Range { start: 123, count: Some(456) })"),
    }

    match "-0xff".parse::<Range>() {
        Ok(Range { start: 0, count: Some(256) }) => (),
        x => panic!("range '{}' = '{:?}' does not match '{}'", "-0xff", x, "Ok(Range { start: 0, count: Some(256) })"),
    }
    match "+0xff".parse::<Range>() {
        Ok(Range { start: 0, count: Some(255) }) => (),
        x => panic!("range '{}' = '{:?}' does not match '{}'", "+0xff", x, "Ok(Range { start: 0, count: Some(255) })"),
    }
    match "0x100-0x200".parse::<Range>() {
        Ok(Range { start: 256, count: Some(257) }) => (),
        x => panic!("range '{}' = '{:?}' does not match '{}'", "0x100-0x200", x, "Ok(Range { start: 256, count: Some(257) })"),
    }
    match "0x200-".parse::<Range>() {
        Ok(Range { start: 512, count: None }) => (),
        x => panic!("range '{}' = '{:?}' does not match '{}'", "0x200-", x, "Ok(Range { start: 512, count: None })"),
    }
    match "16-0xff".parse::<Range>() {
        Ok(Range { start: 16, count: Some(240) }) => (),
        x => panic!("range '{}' = '{:?}' does not match '{}'", "16-0xff", x, "Ok(Range { start: 16, count: Some(240) })"),
    }

    match "1_000-0xffff_ffff".parse::<Range>() {
        Ok(Range { start: 1000, count: Some(4294966296) }) => (),
        x => panic!("range '{}' = '{:?}' does not match '{}'", "1_000-0xffff_ffff", x, "Ok(Range { start: 1000, count: Some(4294966296) })"),
    }
    match "1______0+".parse::<Range>() {
        Ok(Range { start: 10, count: None }) => (),
        x => panic!("range '{}' = '{:?}' does not match '{}'", "1______0+", x, "Ok(Range { start: 10, count: None })"),
    }
    match "1_2_3_4+99".parse::<Range>() {
        Ok(Range { start: 1234, count: Some(99) }) => (),
        x => panic!("range '{}' = '{:?}' does not match '{}'", "1_2_3_4+99", x, "Ok(Range { start: 1234, count: Some(99) })"),
    }

    match "asdf".parse::<Range>() {
        Err(_) => (),
        x => panic!("range '{}' = '{:?}' does not match '{}'", "asdf", x, "Err(_)"),
    }
    match "1-0xabcR".parse::<Range>() {
        Err(_) => (),
        x => panic!("range '{}' = '{:?}' does not match '{}'", "1-0xabcR", x, "Err(_)"),
    }
    match "10".parse::<Range>() {
        Err(_) => (),
        x => panic!("range '{}' = '{:?}' does not match '{}'", "10", x, "Err(_)"),
    }
    match "0x80000000_00000000+10".parse::<Range>() { // start exceeds isize
        Err(_) => (),
        x => panic!("range '{}' = '{:?}' does not match '{}'", "0x80000000_00000000+10", x, "Err(_)"),
    }
    match "0-0xffffffff_ffffffff".parse::<Range>() { // overflow
        Err(_) => (),
        x => panic!("range '{}' = '{:?}' does not match '{}'", "0-0xffffffff_ffffffff", x, "Err(_)"),
    }
}

#[test]
fn literal_followed_by_text_outside_ascii() {
    assert_eq!(hex("0xffé"), Ok(("é", 255)));
    assert_eq!(dec("42→"), Ok(("→", 42)));
    assert_eq!(number("é"), Err(NumberError::NoMatch));
    rejected("1-2é");
    rejected("é-2");
}

#[test]
fn literal_too_large_is_told_apart_from_no_literal() {
    assert_eq!(
        dec("18446744073709551616 rest"),
        Err(NumberError::TooLarge { text: "18446744073709551616", rest: " rest" })
    );
    assert_eq!(dec("18446744073709551615"), Ok(("", u64::MAX)));
    assert_eq!(
        hex("0x1_0000_0000_0000_0000"),
        Err(NumberError::TooLarge { text: "0x1_0000_0000_0000_0000", rest: "" })
    );
    assert_eq!(hex("0xffff_ffff_ffff_ffff"), Ok(("", u64::MAX)));
    assert_eq!(
        number("0x10000000000000000+"),
        Err(NumberError::TooLarge { text: "0x10000000000000000", rest: "+" })
    );
    assert_eq!(hex("0x"), Err(NumberError::NoMatch));
    assert_eq!(hex("0x_1"), Err(NumberError::NoMatch));
    assert_eq!(number("0x"), Ok(("x", 0)));
    assert_eq!(dec("_1"), Err(NumberError::NoMatch));
}

#[test]
fn each_error_names_what_went_wrong() {
    assert_eq!(parsed("asdf"), Err(ParseRangeError::Malformed { input: "asdf".to_string() }));
    assert_eq!(parsed("10"), Err(ParseRangeError::Malformed { input: "10".to_string() }));
    assert_eq!(
        parsed("1-0xabcR"),
        Err(ParseRangeError::Malformed { input: "1-0xabcR".to_string() })
    );
    assert_eq!(parsed(""), Err(ParseRangeError::Malformed { input: String::new() }));
    assert_eq!(parsed("1-2-3"), Err(ParseRangeError::Malformed { input: "1-2-3".to_string() }));
    assert_eq!(parsed("1 - 2"), Err(ParseRangeError::Malformed { input: "1 - 2".to_string() }));
    assert_eq!(
        parsed("99999999999999999999-"),
        Err(ParseRangeError::InvalidNumber {
            side: Side::Start,
            text: "99999999999999999999".to_string()
        })
    );
    assert_eq!(
        parsed("1+0x1ffffffffffffffff"),
        Err(ParseRangeError::InvalidNumber {
            side: Side::End,
            text: "0x1ffffffffffffffff".to_string()
        })
    );
    // A text of another form is malformed, whatever its literals denote.
    assert_eq!(
        parsed("99999999999999999999"),
        Err(ParseRangeError::Malformed { input: "99999999999999999999".to_string() })
    );
    assert_eq!(parsed("0x80000000_00000000+10"), Err(ParseRangeError::StartOutOfBounds));
    assert_eq!(parsed("5-4"), Err(ParseRangeError::EndBeforeStart));
    assert_eq!(parsed("0-0xffffffff_ffffffff"), Err(ParseRangeError::Overflow));
}

#[test]
fn start_is_bounded_by_the_largest_signed_offset() {
    open_ended("9223372036854775807-", i64::MAX as u64);
    open_ended("0x7fffffffffffffff+", i64::MAX as u64);
    assert_eq!(parsed("9223372036854775808-"), Err(ParseRangeError::StartOutOfBounds));
    assert_eq!(parsed("0x8000000000000000+"), Err(ParseRangeError::StartOutOfBounds));
    counted("9223372036854775807-9223372036854775807", i64::MAX as u64, 1);
    counted("1-0xffffffffffffffff", 1, u64::MAX);
    counted("1+0xffffffffffffffff", 1, u64::MAX);
    counted("+0xffffffffffffffff", 0, u64::MAX);
    assert_eq!(parsed("-0xffffffffffffffff"), Err(ParseRangeError::Overflow));
}

#[test]
fn grouping_and_case_do_not_change_a_number() {
    assert_eq!(parsed("1_000_000-"), parsed("1000000-"));
    assert_eq!(parsed("1__0_0___0+5_"), parsed("1000+5"));
    assert_eq!(parsed("0xAb_Cd-"), parsed("0xabcd-"));
    assert_eq!(parsed("0XABCD-"), parsed("0xabcd-"));
    open_ended("0xabcd-", 0xabcd);
    open_ended("0x0_0_ff+", 255);
    open_ended("007-", 7);
    rejected("_1-");
    rejected("0x_1-");
    rejected("0xg-");
    rejected("1a-");
}

#[test]
fn errors_are_written_out() {
    let message = |s: &str| parsed(s).unwrap_err().to_string();
    assert_eq!(message("asdf"), "malformed range 'asdf'");
    assert_eq!(
        message("99999999999999999999-"),
        "range start '99999999999999999999' does not fit in 64 bits"
    );
    assert_eq!(
        message("1+0x1_0000_0000_0000_0000"),
        "range end '0x1_0000_0000_0000_0000' does not fit in 64 bits"
    );
    assert_eq!(message("0x8000000000000000-"), "range start exceeds i64::MAX");
    assert_eq!(message("2-1"), "range end is less than start");
    assert_eq!(message("-0xffffffffffffffff"), "byte count overflow");
}

#[test]
fn pieces_are_what_is_written() {
    assert_eq!(
        parse_range_pieces("5-3"),
        Ok(RangePieces { start: Some(5), mode: Mode::Through, end: Some(3) })
    );
    assert_eq!(
        parse_range_pieces("+0x10"),
        Ok(RangePieces { start: None, mode: Mode::Count, end: Some(16) })
    );
    assert_eq!(
        parse_range_pieces("0xffffffffffffffff-"),
        Ok(RangePieces { start: Some(u64::MAX), mode: Mode::Through, end: None })
    );
    assert_eq!(
        Range::from_pieces(RangePieces { start: None, mode: Mode::Through, end: Some(0) }),
        Ok(Range { start: 0, count: Some(1) })
    );
    assert_eq!(
        Range::from_pieces(RangePieces { start: Some(3), mode: Mode::Count, end: Some(0) }),
        Ok(Range { start: 3, count: Some(0) })
    );
    assert_eq!(
        Range::from_pieces(RangePieces {
            start: Some(u64::MAX),
            mode: Mode::Through,
            end: None
        }),
        Err(ParseRangeError::StartOutOfBounds)
    );
}
