use cipher_chat::numeral::{digit_value, parse_unsigned};

#[test]
fn digits_in_radix_ten() {
    assert_eq!(digit_value(b'0', 10), Some(0));
    assert_eq!(digit_value(b'9', 10), Some(9));
    assert_eq!(digit_value(b'a', 10), None);
    assert_eq!(digit_value(b'A', 10), None);
    assert_eq!(digit_value(b'/', 10), None);
    assert_eq!(digit_value(b':', 10), None);
}

#[test]
fn digits_in_radix_sixteen() {
    assert_eq!(digit_value(b'0', 16), Some(0));
    assert_eq!(digit_value(b'9', 16), Some(9));
    assert_eq!(digit_value(b'a', 16), Some(10));
    assert_eq!(digit_value(b'f', 16), Some(15));
    assert_eq!(digit_value(b'A', 16), Some(10));
    assert_eq!(digit_value(b'F', 16), Some(15));
    assert_eq!(digit_value(b'g', 16), None);
    assert_eq!(digit_value(b'G', 16), None);
    assert_eq!(digit_value(b'_', 16), None);
    assert_eq!(digit_value(b' ', 16), None);
    assert_eq!(digit_value(0xc3, 16), None);
}

#[test]
fn digits_in_other_radixes() {
    assert_eq!(digit_value(b'1', 2), Some(1));
    assert_eq!(digit_value(b'2', 2), None);
    assert_eq!(digit_value(b'z', 36), Some(35));
    assert_eq!(digit_value(b'Z', 36), Some(35));
    assert_eq!(digit_value(b'z', 35), None);
    assert_eq!(digit_value(b'z', 200), Some(35));
    assert_eq!(digit_value(b'0', 1), Some(0));
    assert_eq!(digit_value(b'1', 1), None);
    assert_eq!(digit_value(b'0', 0), None);
}

#[test]
fn parse_unsigned_in_degenerate_radixes() {
    assert_eq!(parse_unsigned(b"0", 0, u64::MAX), None);
    assert_eq!(parse_unsigned(b"", 0, u64::MAX), None);
    assert_eq!(parse_unsigned(b"000", 1, u64::MAX), Some(0));
    assert_eq!(parse_unsigned(b"01", 1, u64::MAX), None);
    assert_eq!(parse_unsigned(b"zz", 36, u64::MAX), Some(35 * 36 + 35));
}

#[test]
fn digits_agree_with_the_standard_library() {
    for radix in [2u8, 8, 10, 16, 36] {
        for byte in 0u8..=255 {
            let expected = (byte as char).to_digit(radix as u32).filter(|_| byte < 128);
            assert_eq!(digit_value(byte, radix).map(|d| d as u32), expected);
        }
    }
}

#[test]
fn parse_unsigned_reads_numbers() {
    assert_eq!(parse_unsigned(b"0", 10, u64::MAX), Some(0));
    assert_eq!(parse_unsigned(b"42", 10, u64::MAX), Some(42));
    assert_eq!(parse_unsigned(b"007", 10, u64::MAX), Some(7));
    assert_eq!(parse_unsigned(b"+42", 10, u64::MAX), Some(42));
    assert_eq!(parse_unsigned(b"ff", 16, u64::MAX), Some(255));
    assert_eq!(parse_unsigned(b"FF", 16, u64::MAX), Some(255));
    assert_eq!(parse_unsigned(b"DeadBeef", 16, u64::MAX), Some(0xdead_beef));
    assert_eq!(parse_unsigned(b"101", 2, u64::MAX), Some(5));
}

#[test]
fn parse_unsigned_refuses_what_is_no_number() {
    assert_eq!(parse_unsigned(b"", 10, u64::MAX), None);
    assert_eq!(parse_unsigned(b"+", 10, u64::MAX), None);
    assert_eq!(parse_unsigned(b"-", 10, u64::MAX), None);
    assert_eq!(parse_unsigned(b"-1", 10, u64::MAX), None);
    assert_eq!(parse_unsigned(b"++1", 10, u64::MAX), None);
    assert_eq!(parse_unsigned(b"1+", 10, u64::MAX), None);
    assert_eq!(parse_unsigned(b" 1", 10, u64::MAX), None);
    assert_eq!(parse_unsigned(b"1 ", 10, u64::MAX), None);
    assert_eq!(parse_unsigned(b"1_000", 10, u64::MAX), None);
    assert_eq!(parse_unsigned(b"12a", 10, u64::MAX), None);
    assert_eq!(parse_unsigned(b"0x10", 16, u64::MAX), None);
    assert_eq!(parse_unsigned(b"fg", 16, u64::MAX), None);
}

#[test]
fn parse_unsigned_keeps_to_the_bound() {
    assert_eq!(parse_unsigned(b"18446744073709551615", 10, u64::MAX), Some(u64::MAX));
    assert_eq!(parse_unsigned(b"18446744073709551616", 10, u64::MAX), None);
    assert_eq!(parse_unsigned(b"99999999999999999999999", 10, u64::MAX), None);
    assert_eq!(parse_unsigned(b"ffffffffffffffff", 16, u64::MAX), Some(u64::MAX));
    assert_eq!(parse_unsigned(b"10000000000000000", 16, u64::MAX), None);
    assert_eq!(parse_unsigned(b"0000000000000000000000001", 10, u64::MAX), Some(1));
    assert_eq!(parse_unsigned(b"255", 10, 255), Some(255));
    assert_eq!(parse_unsigned(b"256", 10, 255), None);
    assert_eq!(parse_unsigned(b"ff", 16, 255), Some(255));
    assert_eq!(parse_unsigned(b"100", 16, 255), None);
    assert_eq!(parse_unsigned(b"0", 10, 0), Some(0));
    assert_eq!(parse_unsigned(b"1", 10, 0), None);
}

#[test]
fn parse_unsigned_agrees_with_the_standard_library() {
    let samples = [
        "", "+", "-", "0", "+0", "-0", "1", "+1", "12345", "0012", "18446744073709551615",
        "18446744073709551616", "ff", "+ff", "FFFF", "fFfF", "g", "1g", " 1", "1 ", "0x1", "++1",
        "ffffffffffffffff", "10000000000000000", "é", "1é",
    ];
    for text in samples {
        assert_eq!(parse_unsigned(text.as_bytes(), 10, u64::MAX), text.parse::<u64>().ok());
        assert_eq!(
            parse_unsigned(text.as_bytes(), 16, u64::MAX),
            u64::from_str_radix(text, 16).ok()
        );
        assert_eq!(
            parse_unsigned(text.as_bytes(), 16, 255).map(|v| v as u8),
            u8::from_str_radix(text, 16).ok()
        );
    }
}
