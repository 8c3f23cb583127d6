use pak_extractor::text::{parse_digits, parse_i32, parse_u8, split_fields};

#[test]
fn a_text_is_split_at_each_separator() {
    assert_eq!(split_fields(b"a\tbc\t\td", b'\t'), vec![
        b"a".to_vec(),
        b"bc".to_vec(),
        Vec::new(),
        b"d".to_vec()
    ]);
    assert_eq!(split_fields(b"", b'\t'), vec![Vec::<u8>::new()]);
    assert_eq!(split_fields(b"\t", b'\t'), vec![Vec::<u8>::new(), Vec::new()]);
    assert_eq!(split_fields(b"name|3", b'|'), vec![b"name".to_vec(), b"3".to_vec()]);
    assert_eq!(split_fields(b"no bar", b'|'), vec![b"no bar".to_vec()]);
}

#[test]
fn splitting_agrees_with_the_standard_split() {
    for text in ["", "\t", "a", "a\tb", "\ta\t\tb\t", "x|y|z", "||"] {
        for separator in ['\t', '|'] {
            let expected: Vec<Vec<u8>> =
                text.split(separator).map(|part| part.as_bytes().to_vec()).collect();
            assert_eq!(split_fields(text.as_bytes(), separator as u8), expected, "{:?}", text);
        }
    }
}

#[test]
fn digits_are_read_up_to_a_limit() {
    assert_eq!(parse_digits(b"0", 10), Some(0));
    assert_eq!(parse_digits(b"10", 10), Some(10));
    assert_eq!(parse_digits(b"11", 10), None);
    assert_eq!(parse_digits(b"0000000000000000000010", 10), Some(10));
    assert_eq!(parse_digits(b"", 10), Some(0));
    assert_eq!(parse_digits(b"1a", 10), None);
    assert_eq!(parse_digits(b"99999999999999999999999999", 0xffff_ffff_ffff), None);
    assert_eq!(parse_digits(b"281474976710655", 0xffff_ffff_ffff), Some(281474976710655));
}

#[test]
fn bytes_are_read_as_the_standard_parser_reads_them() {
    let samples = [
        "", "+", "-", "0", "7", "255", "256", "+255", "+0", "-0", "-1", "0255", "00000", "1 ",
        " 1", "1.0", "2_5", "+-1", "++1", "99999999999999999999", "12a", "\u{661}",
    ];
    for text in samples {
        assert_eq!(parse_u8(text.as_bytes()), text.parse::<u8>().ok(), "{:?}", text);
    }
    for value in 0..=300u32 {
        let text = value.to_string();
        assert_eq!(parse_u8(text.as_bytes()), text.parse::<u8>().ok());
    }
}

#[test]
fn whole_numbers_are_read_as_the_standard_parser_reads_them() {
    let samples = [
        "", "+", "-", "0", "-0", "+0", "7", "-7", "+7", "2147483647", "2147483648",
        "-2147483648", "-2147483649", "+2147483647", "+2147483648", "000000000000000000012",
        "-000000000000000000012", "99999999999999999999999", "-99999999999999999999999",
        "1 ", " 1", "1.0", "--1", "-+1", "1-", "0x10", "1e3", "\u{661}\u{662}",
    ];
    for text in samples {
        assert_eq!(parse_i32(text.as_bytes()), text.parse::<i32>().ok(), "{:?}", text);
    }
    for value in [i32::MIN, i32::MIN + 1, -65536, -1, 0, 1, 65535, i32::MAX - 1, i32::MAX] {
        assert_eq!(parse_i32(value.to_string().as_bytes()), Some(value));
    }
}
