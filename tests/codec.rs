use hexstream::{
    decode, encode, filter_broken_pipe, from_hex_digit, to_hex_digit, App, HexDecoder, HexError,
};

fn all_bytes() -> Vec<u8> {
    (0..=255u8).collect()
}

#[test]
fn round_trip_all_byte_values() {
    let data = all_bytes();
    let text = encode(0, String::new(), &data);
    assert_eq!(decode(false, &text), Ok(data.clone()));
    assert_eq!(decode(true, &text), Ok(data));
}

#[test]
fn round_trip_with_wrapping() {
    let data = vec![7u8, 0, 255, 16, 1, 128, 42];
    for wrap in 0..9usize {
        let text = encode(wrap, String::new(), &data);
        assert_eq!(decode(false, &text), Ok(data.clone()));
    }
}

#[test]
fn round_trip_empty() {
    let text = encode(0, String::new(), &[]);
    assert!(text.is_empty());
    assert_eq!(decode(false, &text), Ok(vec![]));
}

#[test]
fn encoded_length_is_two_digits_per_byte() {
    let data = all_bytes();
    let text = encode(0, String::new(), &data);
    // two hex digits per byte, then the final line feed
    assert_eq!(text.len(), 2 * data.len() + 1);
    assert_eq!(text[text.len() - 1], b'\n');
}

#[test]
fn encoded_length_with_prefix() {
    let text = encode(0, String::from("0x"), &[1, 2, 3]);
    assert_eq!(text, b"0x010x020x03\n".to_vec());
}

#[test]
fn encode_is_lowercase() {
    assert_eq!(encode(0, String::new(), &[0xab, 0xcd, 0xef, 0x09]), b"abcdef09\n".to_vec());
}

#[test]
fn decode_is_case_insensitive() {
    let upper = decode(false, b"AB");
    let lower = decode(false, b"ab");
    let mixed = decode(false, b"Ab");
    assert_eq!(upper, Ok(vec![0xab]));
    assert_eq!(upper, lower);
    assert_eq!(lower, mixed);
}

#[test]
fn decode_odd_length_fails() {
    assert_eq!(decode(false, b"a"), Err(HexError::OddLength));
    assert_eq!(decode(true, b"abc"), Err(HexError::OddLength));
}

#[test]
fn decode_invalid_character_fails() {
    assert_eq!(decode(false, b"zz"), Err(HexError::MalformedInput('z')));
    assert_eq!(decode(true, b"0g"), Err(HexError::MalformedInput('g')));
}

#[test]
fn decode_stops_at_first_offending_byte() {
    // the odd digit count after the bad byte is never reached
    assert_eq!(decode(false, b"ab!cde"), Err(HexError::MalformedInput('!')));
}

#[test]
fn decode_non_ascii_byte_is_reported() {
    assert_eq!(decode(true, &[0x61, 0xff]), Err(HexError::MalformedInput('\u{ff}')));
}

#[test]
fn whitespace_refused_without_tolerance() {
    assert_eq!(decode(false, b"a b1"), Err(HexError::MalformedInput(' ')));
    assert_eq!(decode(false, b"ab\t"), Err(HexError::MalformedInput('\t')));
    assert_eq!(decode(false, b"ab\r\n"), Err(HexError::MalformedInput('\r')));
}

#[test]
fn whitespace_skipped_with_tolerance() {
    assert_eq!(decode(true, b"a b"), Ok(vec![0xab]));
    assert_eq!(decode(true, b"a b "), decode(true, b"ab"));
    assert_eq!(decode(true, b" a\tb\r\n\x0c01 "), Ok(vec![0xab, 0x01]));
}

#[test]
fn line_feed_always_skipped() {
    assert_eq!(decode(false, b"a\nb"), Ok(vec![0xab]));
    assert_eq!(decode(false, b"a\nb"), decode(false, b"ab"));
    assert_eq!(decode(true, b"a\nb"), decode(true, b"ab"));
    assert_eq!(decode(false, b"\n\n"), Ok(vec![]));
}

#[test]
fn wrapping_two_pairs_per_line() {
    assert_eq!(encode(2, String::new(), &[0, 1, 2]), b"0001\n02\n".to_vec());
}

#[test]
fn wrapping_exact_line_gets_no_extra_newline() {
    assert_eq!(encode(2, String::new(), &[0, 1]), b"0001\n".to_vec());
    assert_eq!(encode(1, String::new(), &[0, 1]), b"00\n01\n".to_vec());
}

#[test]
fn prefix_before_every_byte() {
    assert_eq!(encode(0, String::from("0x"), &[0xab]), b"0xab\n".to_vec());
    assert_eq!(encode(1, String::from("0x"), &[0xab, 0x01]), b"0xab\n0x01\n".to_vec());
}

#[test]
fn encode_sources_continue_one_session() {
    let mut app = App::new(false, 2, String::new());
    let mut out = Vec::new();
    app.encode_src(&[0, 1], &mut out);
    app.encode_src(&[2], &mut out);
    app.finish_encode(&mut out);
    assert_eq!(out, encode(2, String::new(), &[0, 1, 2]));
    assert_eq!(out, b"0001\n02\n".to_vec());
}

#[test]
fn encode_sources_column_carries_over() {
    let mut app = App::new(false, 3, String::new());
    let mut out = Vec::new();
    app.encode_src(&[1, 2], &mut out);
    app.encode_src(&[3, 4], &mut out);
    app.finish_encode(&mut out);
    assert_eq!(out, b"010203\n04\n".to_vec());
}

#[test]
fn decode_sources_continue_one_session() {
    let mut app = App::new(false, 0, String::new());
    let mut out = Vec::new();
    assert_eq!(app.decode_src(b"a", &mut out), Ok(()));
    assert!(out.is_empty());
    assert_eq!(app.decode_src(b"b0", &mut out), Ok(()));
    assert_eq!(out, vec![0xab]);
    assert_eq!(app.finish_decode(), Err(HexError::OddLength));
    assert_eq!(app.decode_src(b"1", &mut out), Ok(()));
    assert_eq!(app.finish_decode(), Ok(()));
    assert_eq!(out, vec![0xab, 0x01]);
}

#[test]
fn decode_src_keeps_bytes_before_error() {
    let mut app = App::new(false, 0, String::new());
    let mut out = Vec::new();
    assert_eq!(app.decode_src(b"0102x3", &mut out), Err(HexError::MalformedInput('x')));
    assert_eq!(out, vec![1, 2]);
}

#[test]
fn app_write_single_byte() {
    let mut app = App::new(false, 0, String::from("\\x"));
    let mut out = Vec::new();
    app.write(&mut out, 0x5f);
    assert_eq!(out, b"\\x5f".to_vec());
    app.finish_encode(&mut out);
    assert_eq!(out, b"\\x5f\n".to_vec());
    app.finish_encode(&mut out);
    assert_eq!(out, b"\\x5f\n".to_vec());
}

#[test]
fn finish_encode_on_empty_session_writes_nothing() {
    let mut app = App::new(false, 4, String::new());
    let mut out = Vec::new();
    app.encode_src(&[], &mut out);
    app.finish_encode(&mut out);
    assert!(out.is_empty());
}

#[test]
fn broken_pipe_is_swallowed() {
    assert_eq!(filter_broken_pipe(Err(HexError::BrokenPipe)), Ok(()));
    assert_eq!(filter_broken_pipe(Ok(())), Ok(()));
}

#[test]
fn other_failures_are_kept() {
    assert_eq!(filter_broken_pipe(Err(HexError::IoFailure)), Err(HexError::IoFailure));
    assert_eq!(filter_broken_pipe(Err(HexError::OddLength)), Err(HexError::OddLength));
    assert_eq!(
        filter_broken_pipe(Err(HexError::MalformedInput('q'))),
        Err(HexError::MalformedInput('q'))
    );
}

#[test]
fn hex_digit_values() {
    assert_eq!(from_hex_digit(b'0'), Some(0));
    assert_eq!(from_hex_digit(b'9'), Some(9));
    assert_eq!(from_hex_digit(b'a'), Some(10));
    assert_eq!(from_hex_digit(b'F'), Some(15));
    assert_eq!(from_hex_digit(b'g'), None);
    assert_eq!(from_hex_digit(b' '), None);
    assert_eq!(to_hex_digit(0), b'0');
    assert_eq!(to_hex_digit(11), b'b');
    assert_eq!(to_hex_digit(15), b'f');
}

#[test]
fn decoder_pairs_digits() {
    let mut dec = HexDecoder::new();
    let mut out = Vec::new();
    assert_eq!(dec.finish(), Ok(()));
    dec.write(&mut out, b'F');
    assert!(out.is_empty());
    assert_eq!(dec.finish(), Err(HexError::OddLength));
    dec.write(&mut out, b'e');
    assert_eq!(out, vec![0xfe]);
    assert_eq!(dec.finish(), Ok(()));
}

#[test]
fn column_counts_pairs_without_wrapping() {
    let mut app = App::new(false, 0, String::from("0x"));
    let mut out = Vec::new();
    app.write(&mut out, 0xAB);
    assert_eq!(out, b"0xab".to_vec());
    assert_eq!(app.column(), 1);

    let mut app = App::new(false, 0, String::new());
    let mut out = Vec::new();
    app.encode_src(&[0x00, 0x0f, 0xf0, 0xff], &mut out);
    assert_eq!(out, b"000ff0ff".to_vec());
    assert_eq!(app.column(), 4);
    assert_eq!(app.wrap_size(), 0);
}

#[test]
fn column_resets_at_wrap() {
    let mut app = App::new(false, 3, String::new());
    let mut out = Vec::new();
    app.encode_src(&[1, 2, 3, 4, 5], &mut out);
    assert_eq!(app.column(), 2);
    app.encode_src(&[6], &mut out);
    assert_eq!(app.column(), 0);
    assert_eq!(out, b"010203\n040506\n".to_vec());
}

#[test]
fn encoded_length_counts_line_feeds() {
    // 7 bytes, prefix of 1, wrap 3: 7 * 3 characters and 2 full lines
    let mut app = App::new(false, 3, String::from("x"));
    let mut out = Vec::new();
    app.encode_src(&[9, 8, 7, 6, 5, 4, 3], &mut out);
    assert_eq!(out.len(), 7 * 3 + 2);
    assert_eq!(out.iter().filter(|b| **b == b'\n').count(), 2);
}
