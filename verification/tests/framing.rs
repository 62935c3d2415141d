use clasangd::lsp_io::{
    find_header_end, frame_text, parse_content_length, read_frame, read_lsp_message, write_frame,
    write_lsp_message, ReadError,
};

#[test]
fn frame_round_trip_keeps_body_and_leaves_trailing_bytes() {
    let body = b"{\"jsonrpc\":\"2.0\"}".to_vec();
    let mut stream = write_frame(&body);
    assert_eq!(stream, b"Content-Length: 17\r\n\r\n{\"jsonrpc\":\"2.0\"}".to_vec());
    let written = stream.len();
    stream.extend_from_slice(b"Content-Le");
    let frame = read_frame(&stream).ok().unwrap();
    assert_eq!(frame.body, body);
    assert_eq!(frame.consumed, written);
    assert_eq!(&stream[frame.consumed..], b"Content-Le");
}

#[test]
fn frame_round_trip_of_empty_and_long_bodies() {
    for n in [0usize, 1, 9, 10, 99, 100, 12345] {
        let body = vec![b'x'; n];
        let stream = write_frame(&body);
        let frame = read_frame(&stream).ok().unwrap();
        assert_eq!(frame.body, body);
        assert_eq!(frame.consumed, stream.len());
    }
}

#[test]
fn header_is_exactly_the_wire_format() {
    assert_eq!(write_frame(b""), b"Content-Length: 0\r\n\r\n".to_vec());
    assert_eq!(write_frame(b"abc"), b"Content-Length: 3\r\n\r\nabc".to_vec());
    // The length counts bytes, not characters.
    assert_eq!(frame_text("\u{e9}"), b"Content-Length: 2\r\n\r\n\xc3\xa9".to_vec());
}

#[test]
fn empty_stream_is_clean_end() {
    assert_eq!(read_frame(b"").err(), Some(ReadError::Eof));
    assert!(!ReadError::Eof.is_failure());
}

#[test]
fn stream_that_ends_early_is_truncated_never_eof() {
    let stream = write_frame(b"{\"a\":1}");
    for k in 1..stream.len() {
        let e = read_frame(&stream[..k]).err();
        assert_eq!(e, Some(ReadError::Truncated), "prefix of {} bytes", k);
        assert!(e.unwrap().is_failure());
    }
    assert!(read_frame(&stream).is_ok());
}

#[test]
fn header_without_length_is_malformed() {
    assert_eq!(read_frame(b"Content-Type: x\r\n\r\n{}").err(), Some(ReadError::MalformedHeader));
    assert_eq!(read_frame(b"\r\n\r\n").err(), Some(ReadError::MalformedHeader));
    assert_eq!(
        read_frame(b"Content-Length: abc\r\n\r\n{}").err(),
        Some(ReadError::MalformedHeader)
    );
    assert_eq!(read_frame(b"Content-Length\r\n\r\n{}").err(), Some(ReadError::MalformedHeader));
    assert_eq!(
        read_frame(b"Content-Length: 99999999999999999999999999\r\n\r\n{}").err(),
        Some(ReadError::MalformedHeader)
    );
    assert!(ReadError::MalformedHeader.is_failure());
}

#[test]
fn header_name_matches_without_regard_to_case() {
    assert_eq!(parse_content_length(b"content-length: 12\r\n\r\n"), Some(12));
    assert_eq!(parse_content_length(b"CONTENT-LENGTH:12\r\n\r\n"), Some(12));
    assert_eq!(parse_content_length(b"Content-Type: a\r\nContent-length:   7  \r\n\r\n"), Some(7));
    assert_eq!(parse_content_length(b"Content-Length: +5\r\n\r\n"), Some(5));
    assert_eq!(parse_content_length(b"Content-Length: -5\r\n\r\n"), None);
    assert_eq!(parse_content_length(b"Content-Length: \r\n\r\n"), None);
}

#[test]
fn first_length_line_wins() {
    assert_eq!(parse_content_length(b"Content-Length: 3\r\nContent-Length: 4\r\n\r\n"), Some(3));
    // The first line that names a length decides even where it is unusable.
    assert_eq!(parse_content_length(b"Content-Length: x\r\nContent-Length: 4\r\n\r\n"), None);
}

#[test]
fn header_end_is_the_first_empty_line() {
    assert_eq!(find_header_end(b"a\r\n\r\nb\r\n\r\n"), Some(5));
    assert_eq!(find_header_end(b"\r\n\r\n"), Some(4));
    assert_eq!(find_header_end(b"a\r\n\r"), None);
    assert_eq!(find_header_end(b""), None);
    assert_eq!(find_header_end(b"a\n\nb"), None);
}

#[test]
fn body_longer_than_stream_is_truncated() {
    assert_eq!(read_frame(b"Content-Length: 5\r\n\r\nabcd").err(), Some(ReadError::Truncated));
    let frame = read_frame(b"Content-Length: 5\r\n\r\nabcdefg").ok().unwrap();
    assert_eq!(frame.body, b"abcde".to_vec());
    assert_eq!(frame.consumed, 26);
}

#[test]
fn message_round_trip_through_json() {
    let text = "{\"jsonrpc\":\"2.0\",\"id\":7,\"method\":\"initialize\",\"params\":{\"rootPath\":\"/w\"}}";
    let value: serde_json::Value = serde_json::from_str(text).unwrap();
    let mut stream = write_lsp_message(&value).unwrap();
    let written = stream.len();
    stream.extend_from_slice(b"tail");
    let incoming = read_lsp_message(&stream).ok().unwrap();
    assert_eq!(incoming.message, value);
    assert_eq!(incoming.consumed, written);
}

#[test]
fn body_that_is_no_json_is_invalid() {
    let stream = write_frame(b"{not json");
    assert_eq!(read_lsp_message(&stream).err(), Some(ReadError::InvalidBody));
    assert_eq!(read_lsp_message(b"Content-Length: 0\r\n\r\n").err(), Some(ReadError::InvalidBody));
    assert_eq!(read_lsp_message(b"").err(), Some(ReadError::Eof));
    assert_eq!(read_lsp_message(b"Content-Len").err(), Some(ReadError::Truncated));
    assert!(ReadError::InvalidBody.is_failure());
    assert!(ReadError::Truncated.is_failure());
}

#[test]
fn two_messages_in_one_stream_are_read_one_after_the_other() {
    let mut stream = frame_text("{\"a\":1}");
    stream.extend_from_slice(&frame_text("{\"b\":2}"));
    let first = read_lsp_message(&stream).ok().unwrap();
    assert_eq!(first.message["a"], serde_json::Value::from(1));
    let second = read_lsp_message(&stream[first.consumed..]).ok().unwrap();
    assert_eq!(second.message["b"], serde_json::Value::from(2));
    assert_eq!(first.consumed + second.consumed, stream.len());
    assert_eq!(read_lsp_message(&stream[stream.len()..]).err(), Some(ReadError::Eof));
}
