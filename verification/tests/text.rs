use bcut::digits::{scan_run, Radix};
use bcut::text::{decimal, lower, split_ascii_prefix};

#[test]
fn digit_runs_are_read_to_their_end() {
    assert_eq!(scan_run(b"12_3x", 0, Radix::Decimal), (4, Some(123)));
    assert_eq!(scan_run(b"0x1f__+", 2, Radix::Hex), (6, Some(31)));
    assert_eq!(scan_run(b"ff", 0, Radix::Decimal), (0, Some(0)));
    assert_eq!(scan_run(b"FfG", 0, Radix::Hex), (2, Some(255)));
    assert_eq!(scan_run(b"_1", 0, Radix::Decimal), (0, Some(0)));
    assert_eq!(scan_run(b"7", 1, Radix::Decimal), (1, Some(0)));
    assert_eq!(scan_run(b"", 0, Radix::Hex), (0, Some(0)));
    assert_eq!(scan_run(b"18446744073709551615", 0, Radix::Decimal), (20, Some(u64::MAX)));
    assert_eq!(scan_run(b"18446744073709551616", 0, Radix::Decimal), (20, None));
    assert_eq!(scan_run(b"1_0000_0000_0000_0000-", 0, Radix::Hex), (21, None));
    assert_eq!(scan_run(b"0000000000000000000000001", 0, Radix::Decimal), (25, Some(1)));
}

#[test]
fn numbers_are_written_in_decimal() {
    assert_eq!(decimal(0), "0");
    assert_eq!(decimal(9), "9");
    assert_eq!(decimal(10), "10");
    assert_eq!(decimal(1_000_000), "1000000");
    assert_eq!(decimal(u64::MAX), "18446744073709551615");
    for n in [0u64, 5, 42, 1 << 40, u64::MAX - 1] {
        assert_eq!(decimal(n), n.to_string());
        assert_eq!(scan_run(decimal(n).as_bytes(), 0, Radix::Decimal).1, Some(n));
    }
}

#[test]
fn text_is_split_after_its_ascii_prefix() {
    assert_eq!(split_ascii_prefix("ab→c", 2), ("ab", "→c"));
    assert_eq!(split_ascii_prefix("ab", 2), ("ab", ""));
    assert_eq!(split_ascii_prefix("é", 0), ("", "é"));
}

#[test]
fn only_ascii_capitals_change_case() {
    assert_eq!(lower(b'A'), b'a');
    assert_eq!(lower(b'Z'), b'z');
    assert_eq!(lower(b'a'), b'a');
    assert_eq!(lower(b'@'), b'@');
    assert_eq!(lower(b'['), b'[');
    assert_eq!(lower(b'_'), b'_');
    assert_eq!(lower(0xc4), 0xc4);
}
