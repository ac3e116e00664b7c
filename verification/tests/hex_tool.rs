use cipher_chat::hex_tool::{
    decode_hex, dump_line, hex_dump, offset_label, parse_offset, try_parse_offset, OffsetError,
    BYTES_PER_LINE, OFFSET_WIDTH,
};

fn text(line: &[u8]) -> String {
    String::from_utf8(line.to_vec()).unwrap()
}

#[test]
fn parse_offset_reads_decimal() {
    assert_eq!(parse_offset("0"), 0);
    assert_eq!(parse_offset("16"), 16);
    assert_eq!(parse_offset("+16"), 16);
    assert_eq!(parse_offset("0016"), 16);
    assert_eq!(parse_offset("18446744073709551615"), u64::MAX);
}

#[test]
fn parse_offset_reads_hexadecimal_after_the_prefix() {
    assert_eq!(parse_offset("0x0"), 0);
    assert_eq!(parse_offset("0x10"), 16);
    assert_eq!(parse_offset("0xff"), 255);
    assert_eq!(parse_offset("0xFF"), 255);
    assert_eq!(parse_offset("0x+ff"), 255);
    assert_eq!(parse_offset("0xffffffffffffffff"), u64::MAX);
    assert_eq!(parse_offset("0x0000000000000000001"), 1);
}

#[test]
fn try_parse_offset_gives_the_offset() {
    assert_eq!(try_parse_offset("32"), Ok(32));
    assert_eq!(try_parse_offset("0x20"), Ok(32));
    assert_eq!(try_parse_offset("0"), Ok(0));
}

#[test]
fn try_parse_offset_names_the_kind_of_number_expected() {
    assert_eq!(try_parse_offset(""), Err(OffsetError::InvalidDecimal));
    assert_eq!(try_parse_offset("abc"), Err(OffsetError::InvalidDecimal));
    assert_eq!(try_parse_offset("-1"), Err(OffsetError::InvalidDecimal));
    assert_eq!(try_parse_offset("1.5"), Err(OffsetError::InvalidDecimal));
    assert_eq!(try_parse_offset(" 1"), Err(OffsetError::InvalidDecimal));
    assert_eq!(try_parse_offset("0X10"), Err(OffsetError::InvalidDecimal));
    assert_eq!(try_parse_offset("ff"), Err(OffsetError::InvalidDecimal));
    assert_eq!(try_parse_offset("18446744073709551616"), Err(OffsetError::InvalidDecimal));
    assert_eq!(try_parse_offset("0x"), Err(OffsetError::InvalidHex));
    assert_eq!(try_parse_offset("0xg"), Err(OffsetError::InvalidHex));
    assert_eq!(try_parse_offset("0x-1"), Err(OffsetError::InvalidHex));
    assert_eq!(try_parse_offset("0x+"), Err(OffsetError::InvalidHex));
    assert_eq!(try_parse_offset("0x 1"), Err(OffsetError::InvalidHex));
    assert_eq!(try_parse_offset("0x0x1"), Err(OffsetError::InvalidHex));
    assert_eq!(try_parse_offset("0x10000000000000000"), Err(OffsetError::InvalidHex));
    assert_eq!(try_parse_offset("0xé"), Err(OffsetError::InvalidHex));
}

#[test]
fn decode_hex_reads_byte_pairs() {
    assert_eq!(decode_hex(""), Some(vec![]));
    assert_eq!(decode_hex("00"), Some(vec![0]));
    assert_eq!(decode_hex("48656c6c6f"), Some(b"Hello".to_vec()));
    assert_eq!(decode_hex("DEADbeef"), Some(vec![0xde, 0xad, 0xbe, 0xef]));
    assert_eq!(decode_hex("ff00ff"), Some(vec![255, 0, 255]));
}

#[test]
fn decode_hex_takes_a_sign_for_the_first_digit_of_a_pair() {
    assert_eq!(decode_hex("+f"), Some(vec![15]));
    assert_eq!(decode_hex("0a+b"), Some(vec![10, 11]));
}

#[test]
fn decode_hex_refuses_what_is_no_string_of_pairs() {
    assert_eq!(decode_hex("0"), None);
    assert_eq!(decode_hex("abc"), None);
    assert_eq!(decode_hex("zz"), None);
    assert_eq!(decode_hex("0g"), None);
    assert_eq!(decode_hex("-1"), None);
    assert_eq!(decode_hex("++"), None);
    assert_eq!(decode_hex("f+"), None);
    assert_eq!(decode_hex("12 4"), None);
    assert_eq!(decode_hex("0x12"), None);
    assert_eq!(decode_hex("é"), None);
    assert_eq!(decode_hex("1é2"), None);
}

#[test]
fn hex_digits_are_lower_case() {
    let bytes: Vec<u8> = (0u8..16).map(|d| d * 17).collect();
    let line = dump_line(0xabcdef, &bytes);
    assert_eq!(
        text(&line),
        "00abcdef: 00 11 22 33 44 55 66 77 88 99 aa bb cc dd ee ff  |..\"3DUfw........|"
    );
}

#[test]
fn offset_labels_have_at_least_eight_digits() {
    assert_eq!(OFFSET_WIDTH, 8);
    assert_eq!(text(&offset_label(0)), "00000000");
    assert_eq!(text(&offset_label(0x10)), "00000010");
    assert_eq!(text(&offset_label(0xabc)), "00000abc");
    assert_eq!(text(&offset_label(0xffff_ffff)), "ffffffff");
    assert_eq!(text(&offset_label(0x1_0000_0000)), "100000000");
    assert_eq!(text(&offset_label(u64::MAX)), "ffffffffffffffff");
    for offset in [0u64, 1, 15, 16, 255, 4096, 0xdead_beef, 0x1234_5678_9abc, u64::MAX] {
        assert_eq!(text(&offset_label(offset)), format!("{:08x}", offset));
    }
}

#[test]
fn a_full_dump_line() {
    let line = dump_line(0, b"Hello, world!\n\x00\xff");
    assert_eq!(
        text(&line),
        "00000000: 48 65 6c 6c 6f 2c 20 77 6f 72 6c 64 21 0a 00 ff  |Hello, world!...|"
    );
}

#[test]
fn a_short_dump_line_is_padded() {
    let line = dump_line(0x10, b"AB");
    let expected = format!("00000010: 41 42 {} |AB|", " ".repeat(42));
    assert_eq!(text(&line), expected);
    assert_eq!(line.len(), 10 + 48 + 2 + 2 + 1);
}

#[test]
fn an_empty_dump_line() {
    let line = dump_line(7, b"");
    assert_eq!(text(&line), format!("00000007: {} ||", " ".repeat(48)));
}

#[test]
fn the_text_column_shows_printable_ascii_only() {
    let line = dump_line(0, &[31, 32, 126, 127, 128, 255, b'a', b'~', b' ']);
    let shown = text(&line);
    assert!(shown.ends_with(" |. ~...a~ |"));
}

#[test]
fn a_dump_has_sixteen_bytes_to_the_line() {
    assert_eq!(BYTES_PER_LINE, 16);
    let data: Vec<u8> = (0u8..40).collect();
    let lines = hex_dump(0x100, &data);
    assert_eq!(lines.len(), 3);
    assert_eq!(
        text(&lines[0]),
        "00000100: 00 01 02 03 04 05 06 07 08 09 0a 0b 0c 0d 0e 0f  |................|"
    );
    assert_eq!(
        text(&lines[1]),
        "00000110: 10 11 12 13 14 15 16 17 18 19 1a 1b 1c 1d 1e 1f  |................|"
    );
    assert_eq!(
        text(&lines[2]),
        format!("00000120: 20 21 22 23 24 25 26 27 {} | !\"#$%&'|", " ".repeat(24))
    );
}

#[test]
fn a_dump_of_nothing_has_no_lines() {
    assert_eq!(hex_dump(0, &[]).len(), 0);
    assert_eq!(hex_dump(12345, &[]).len(), 0);
}

#[test]
fn a_dump_of_whole_lines_has_no_short_line() {
    let data = [0x41u8; 32];
    let lines = hex_dump(0, &data);
    assert_eq!(lines.len(), 2);
    for (i, line) in lines.iter().enumerate() {
        assert_eq!(line, &dump_line(16 * i as u64, &data[..16]));
    }
    assert_eq!(hex_dump(0, &data[..16]).len(), 1);
    assert_eq!(hex_dump(0, &data[..17]).len(), 2);
    assert_eq!(hex_dump(0, &data[..1]).len(), 1);
}

#[test]
fn dump_lines_agree_with_a_plain_formatter() {
    let data: Vec<u8> = (0..100u32).map(|i| (i * 37 % 256) as u8).collect();
    let offset = 0xffff_fff0u64;
    let lines = hex_dump(offset, &data);
    for (i, chunk) in data.chunks(16).enumerate() {
        let mut expected = format!("{:08x}: ", offset + (i * 16) as u64);
        for byte in chunk {
            expected.push_str(&format!("{:02x} ", byte));
        }
        for _ in chunk.len()..16 {
            expected.push_str("   ");
        }
        expected.push_str(" |");
        for &byte in chunk {
            expected.push(if (32..=126).contains(&byte) { byte as char } else { '.' });
        }
        expected.push('|');
        assert_eq!(text(&lines[i]), expected);
    }
    assert_eq!(lines.len(), 7);
}

#[test]
fn dump_offsets_wrap_at_the_top() {
    let data = [0u8; 32];
    let lines = hex_dump(u64::MAX - 15, &data);
    assert!(text(&lines[0]).starts_with("fffffffffffffff0: "));
    assert!(text(&lines[1]).starts_with("00000000: "));
}

#[test]
fn an_offset_label_reads_back_as_the_offset() {
    for offset in [0u64, 1, 9, 10, 15, 16, 255, 256, 0xabc, 0xffff_ffff, 0x1_0000_0000, u64::MAX] {
        let label = text(&offset_label(offset));
        assert_eq!(try_parse_offset(&format!("0x{}", label)), Ok(offset));
        assert_eq!(parse_offset(&format!("0x{}", label)), offset);
    }
}

#[test]
fn dump_cells_read_back_as_the_bytes() {
    let data: Vec<u8> = (0u8..=255).collect();
    for line in hex_dump(0, &data) {
        let shown = text(&line);
        let cells: String = shown[10..58].split(' ').collect();
        let bytes = decode_hex(&cells).unwrap();
        assert_eq!(bytes.len(), 16);
        let first = parse_offset(&format!("0x{}", &shown[..8])) as usize;
        assert_eq!(bytes, data[first..first + 16].to_vec());
    }
}
