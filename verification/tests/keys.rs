use pak_extractor::keys::{key_from_line, load_keys, CandidateKey};

fn secret_of(text: &str) -> [u8; 32] {
    let mut secret = [0u8; 32];
    secret[..31].copy_from_slice(text.as_bytes());
    secret
}

#[test]
fn a_line_of_31_bytes_is_a_key_with_a_closing_zero() {
    let line = "0123456789abcdefghijklmnopqrstu";
    let key = key_from_line(line).unwrap();
    assert_eq!(key.secret.len(), 32);
    assert_eq!(&key.secret[..31], line.as_bytes());
    assert_eq!(key.secret[31], 0);
}

#[test]
fn white_space_around_a_key_is_trimmed() {
    let line = "0123456789abcdefghijklmnopqrstu";
    let padded = format!(" \t{}\r\n", line);
    assert_ne!(padded.len(), 31);
    assert_eq!(key_from_line(&padded), Some(CandidateKey { secret: secret_of(line) }));
    let wide = format!("\u{a0}\u{3000}{}\u{2028}\u{85}", line);
    assert_eq!(key_from_line(&wide), Some(CandidateKey { secret: secret_of(line) }));
}

#[test]
fn white_space_inside_a_key_stays() {
    let line = "0123456789 bcdefghijklmnopqrstu";
    assert_eq!(key_from_line(line), Some(CandidateKey { secret: secret_of(line) }));
}

#[test]
fn lines_of_another_length_are_no_keys() {
    assert_eq!(key_from_line(""), None);
    assert_eq!(key_from_line("   "), None);
    assert_eq!(key_from_line("0123456789abcdefghijklmnopqrst"), None);
    assert_eq!(key_from_line("0123456789abcdefghijklmnopqrstuv"), None);
    assert_eq!(key_from_line("0123456789abcdefghijklmnopqrst\u{200b}"), None);
}

#[test]
fn the_length_of_a_key_line_counts_bytes() {
    // 29 letters and one two-byte letter are 31 bytes.
    let line = "0123456789abcdefghijklmnopqrs\u{e9}";
    assert_eq!(line.len(), 31);
    assert_eq!(key_from_line(line), Some(CandidateKey { secret: secret_of(line) }));
    // 31 letters of which one takes two bytes are 32 bytes.
    assert_eq!(key_from_line("0123456789abcdefghijklmnopqrst\u{e9}"), None);
}

#[test]
fn keys_are_loaded_in_file_order_and_other_lines_are_passed_over() {
    let first = "aaaaaaaaaaaaaaaaaaaaaaaaaaaaaaa";
    let second = "bbbbbbbbbbbbbbbbbbbbbbbbbbbbbbb";
    let lines = vec![
        String::from("# keys"),
        format!("{}\r", second),
        String::new(),
        String::from("too short"),
        format!("  {}", first),
        format!("{}", second),
    ];
    let keys = load_keys(&lines);
    assert_eq!(
        keys,
        vec![
            CandidateKey { secret: secret_of(second) },
            CandidateKey { secret: secret_of(first) },
            CandidateKey { secret: secret_of(second) },
        ]
    );
}

#[test]
fn a_list_without_key_lines_gives_no_keys() {
    assert_eq!(load_keys(&Vec::new()), Vec::new());
    assert_eq!(load_keys(&vec![String::from("nothing"), String::new()]), Vec::new());
}
