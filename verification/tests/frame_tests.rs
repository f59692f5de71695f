use tokio_mini_redis::frame::{decode_frame, encode_frame, frame_input_accepted, Frame};

fn bulk(s: &str) -> Frame {
    Frame::Bulk(s.as_bytes().to_vec())
}

#[test]
fn encode_simple_string() {
    assert_eq!(encode_frame(&Frame::Simple("OK".to_string())), b"+OK\r\n".to_vec());
}

#[test]
fn encode_error_string() {
    assert_eq!(encode_frame(&Frame::Error("ERR bad".to_string())), b"-ERR bad\r\n".to_vec());
}

#[test]
fn encode_null() {
    assert_eq!(encode_frame(&Frame::Null), b"$-1\r\n".to_vec());
}

#[test]
fn encode_utf8_payload() {
    assert_eq!(encode_frame(&Frame::Simple("é".to_string())), vec![b'+', 0xc3, 0xa9, b'\r', b'\n']);
}

#[test]
fn decode_simple_string() {
    assert_eq!(decode_frame(b"+OK\r\n"), Ok(Some((Frame::Simple("OK".to_string()), 5))));
}

#[test]
fn decode_leaves_following_bytes() {
    assert_eq!(decode_frame(b"+OK\r\n+NEXT\r\n"), Ok(Some((Frame::Simple("OK".to_string()), 5))));
}

#[test]
fn decode_error_frame() {
    assert_eq!(decode_frame(b"-oops\r\n"), Ok(Some((Frame::Error("oops".to_string()), 7))));
}

#[test]
fn decode_integer() {
    assert_eq!(decode_frame(b":1234\r\n"), Ok(Some((Frame::Integer(1234), 7))));
}

#[test]
fn decode_null() {
    assert_eq!(decode_frame(b"$-1\r\n"), Ok(Some((Frame::Null, 5))));
}

#[test]
fn decode_bulk() {
    assert_eq!(decode_frame(b"$5\r\nhello\r\n"), Ok(Some((bulk("hello"), 11))));
}

#[test]
fn decode_array() {
    let bytes = b"*2\r\n$3\r\nget\r\n$3\r\nfoo\r\n";
    assert_eq!(
        decode_frame(bytes),
        Ok(Some((Frame::Array(vec![bulk("get"), bulk("foo")]), bytes.len())))
    );
}

#[test]
fn decode_nested_array() {
    let bytes = b"*2\r\n*1\r\n:1\r\n+x\r\n";
    assert_eq!(
        decode_frame(bytes),
        Ok(Some((
            Frame::Array(vec![Frame::Array(vec![Frame::Integer(1)]), Frame::Simple("x".to_string())]),
            bytes.len()
        )))
    );
}

#[test]
fn decode_empty_is_incomplete() {
    assert_eq!(decode_frame(b""), Ok(None));
}

#[test]
fn decode_partial_line_is_incomplete() {
    assert_eq!(decode_frame(b"+OK"), Ok(None));
}

#[test]
fn decode_partial_bulk_is_incomplete() {
    assert_eq!(decode_frame(b"$5\r\nhel"), Ok(None));
}

#[test]
fn decode_partial_array_is_incomplete() {
    assert_eq!(decode_frame(b"*2\r\n$3\r\nget\r\n"), Ok(None));
}

#[test]
fn decode_unknown_type_byte() {
    assert_eq!(
        decode_frame(b"?x\r\n"),
        Err("protocol error; invalid frame type byte `63`".to_string())
    );
}

#[test]
fn decode_bad_null() {
    assert_eq!(decode_frame(b"$-2\r\n"), Err("protocol error; invalid frame format".to_string()));
}

#[test]
fn decode_bad_decimal() {
    assert_eq!(decode_frame(b":abc\r\n"), Err("protocol error; invalid frame format".to_string()));
}

#[test]
fn decode_bad_utf8() {
    assert_eq!(
        decode_frame(b"+\xff\r\n"),
        Err("protocol error; invalid frame format".to_string())
    );
}

#[test]
fn encoded_frames_decode_back() {
    for frame in [Frame::Simple("hello world".to_string()), Frame::Error("ERR x".to_string()), Frame::Null] {
        let bytes = encode_frame(&frame);
        let n = bytes.len();
        assert_eq!(decode_frame(&bytes), Ok(Some((frame, n))));
    }
}

#[test]
fn input_with_overflowing_bulk_length_is_refused() {
    assert!(!frame_input_accepted(b"$18446744073709551614\r\n"));
    assert!(!frame_input_accepted(b"$18446744073709551615\r\nxy"));
    assert!(!frame_input_accepted(b"*1\r\n$18446744073709551615\r\n"));
    assert!(frame_input_accepted(b"$18446744073709551613\r\n"));
    assert!(frame_input_accepted(b"$18446744073709551616\r\n"));
    assert!(frame_input_accepted(b"$18446744073709551615"));
    assert!(frame_input_accepted(b"$12345678901234567890\r\n"));
    assert!(frame_input_accepted(b"+$00000000000000000000\r\n"));
    assert!(frame_input_accepted(b"+OK\r\n$18446744073709551615\r\n"));
    assert!(frame_input_accepted(b""));
}

#[test]
fn bulk_length_with_leading_zeros_decodes() {
    let bytes = b"$000000000000000000000005\r\nhello\r\n";
    assert!(frame_input_accepted(bytes));
    assert_eq!(decode_frame(bytes), Ok(Some((bulk("hello"), bytes.len()))));
}

fn nested(levels: usize) -> Vec<u8> {
    let mut bytes = b"*1\r\n".repeat(levels);
    bytes.extend_from_slice(b"+x\r\n");
    bytes
}

#[test]
fn input_nested_too_deep_is_refused() {
    assert!(frame_input_accepted(&nested(1024)));
    assert!(!frame_input_accepted(&nested(1025)));
}

#[test]
fn frame_nested_to_the_limit_decodes() {
    let bytes = nested(1024);
    let mut expected = Frame::Simple("x".to_string());
    for _ in 0..1024 {
        expected = Frame::Array(vec![expected]);
    }
    assert_eq!(decode_frame(&bytes), Ok(Some((expected, bytes.len()))));
}

#[test]
fn wide_or_embedded_arrays_are_accepted() {
    let mut wide = b"*1025\r\n".to_vec();
    wide.extend_from_slice(&b"*0\r\n".repeat(1025));
    assert!(frame_input_accepted(&wide));
    assert_eq!(
        decode_frame(&wide),
        Ok(Some((Frame::Array((0..1025).map(|_| Frame::Array(vec![])).collect()), wide.len())))
    );
    let payload = b"*1".repeat(1025);
    let mut bulk_bytes = format!("${}\r\n", payload.len()).into_bytes();
    bulk_bytes.extend_from_slice(&payload);
    bulk_bytes.extend_from_slice(b"\r\n");
    assert!(frame_input_accepted(&bulk_bytes));
    assert!(frame_input_accepted(&[b'*'; 4096]));
}

#[test]
fn payload_with_many_digits_decodes() {
    let bytes = b"+123456789012345678901234567890\r\n";
    assert_eq!(
        decode_frame(bytes),
        Ok(Some((Frame::Simple("123456789012345678901234567890".to_string()), bytes.len())))
    );
}

#[test]
fn written_frames_are_accepted_whatever_follows() {
    for frame in [Frame::Simple("a".to_string()), Frame::Error("b".to_string()), Frame::Null] {
        let mut bytes = encode_frame(&frame);
        bytes.extend_from_slice(b"$18446744073709551615\r\n");
        assert!(frame_input_accepted(&bytes));
    }
}
