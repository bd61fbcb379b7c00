use mystudio::codec::{decode_next, encode, DecodeStep, FrameDecoder, ProtocolError};

fn frame_of(step: DecodeStep) -> (Vec<u8>, usize) {
    match step {
        DecodeStep::Frame { payload, consumed } => (payload, consumed),
        other => panic!("expected a frame, got {:?}", other),
    }
}

#[test]
fn encode_writes_exact_header() {
    assert_eq!(encode(b"{}"), b"Content-Length: 2\r\n\r\n{}".to_vec());
    assert_eq!(encode(b""), b"Content-Length: 0\r\n\r\n".to_vec());
    let big = vec![b'a'; 1234];
    let framed = encode(&big);
    assert!(framed.starts_with(b"Content-Length: 1234\r\n\r\naaa"));
    assert_eq!(framed.len(), 24 + 1234);
}

#[test]
fn round_trip_with_trailing_bytes() {
    let payload = br#"{"jsonrpc":"2.0","id":7,"result":null}"#.to_vec();
    let mut stream = encode(&payload);
    let frame_len = stream.len();
    stream.extend_from_slice(b"Content-Length: 1");
    let (p, consumed) = frame_of(decode_next(&stream));
    assert_eq!(p, payload);
    assert_eq!(consumed, frame_len);
}

#[test]
fn reads_exactly_the_declared_bytes() {
    let stream = b"Content-Length: 13\r\n\r\n{\"ok\":true}\r\nContent-Length: 2\r\n\r\n{}";
    let (p, consumed) = frame_of(decode_next(stream));
    assert_eq!(p, b"{\"ok\":true}\r\n".to_vec());
    assert_eq!(consumed, 35);
    let (p2, consumed2) = frame_of(decode_next(&stream[consumed..]));
    assert_eq!(p2, b"{}".to_vec());
    assert_eq!(consumed2, 23);
}

#[test]
fn byte_at_a_time_matches_all_at_once() {
    let stream = encode(b"{\"method\":\"x\"}");
    let whole = frame_of(decode_next(&stream));
    let mut decoder = FrameDecoder::new();
    for (i, b) in stream.iter().enumerate() {
        decoder.feed(&[*b]);
        let step = decoder.next_payload();
        if i + 1 < stream.len() {
            assert!(matches!(step, DecodeStep::Pending), "early result at byte {}", i);
        } else {
            assert_eq!(frame_of(step), whole);
        }
    }
    assert_eq!(decoder.buffered(), 0);
}

#[test]
fn truncated_payload_is_pending() {
    let stream = b"Content-Length: 10\r\n\r\n{\"a\":";
    assert!(matches!(decode_next(stream), DecodeStep::Pending));
    assert!(matches!(decode_next(b"Content-Length: 10\r\n"), DecodeStep::Pending));
    assert!(matches!(decode_next(b""), DecodeStep::Pending));
}

#[test]
fn other_headers_are_skipped() {
    let stream = b"Content-Type: application/vscode-jsonrpc; charset=utf-8\r\nContent-Length: 2\r\n\r\n{}";
    let (p, consumed) = frame_of(decode_next(stream));
    assert_eq!(p, b"{}".to_vec());
    assert_eq!(consumed, stream.len());
}

#[test]
fn malformed_headers_are_errors() {
    assert!(matches!(decode_next(b"garbage\r\n\r\n{}"), DecodeStep::Error(ProtocolError::MalformedHeader)));
    assert!(matches!(decode_next(b"X-Thing: 1\r\n\r\n{}"), DecodeStep::Error(ProtocolError::MissingLength)));
    assert!(matches!(decode_next(b"Content-Length: 1x\r\n\r\n{}"), DecodeStep::Error(ProtocolError::InvalidLength)));
    assert!(matches!(decode_next(b"Content-Length: \r\n\r\n{}"), DecodeStep::Error(ProtocolError::InvalidLength)));
    assert!(matches!(
        decode_next(b"Content-Length: 99999999999999999999999\r\n\r\n"),
        DecodeStep::Error(ProtocolError::InvalidLength)
    ));
}

#[test]
fn decoder_keeps_bytes_after_a_frame() {
    let mut decoder = FrameDecoder::new();
    let mut stream = encode(b"[1]");
    stream.extend_from_slice(b"Content-");
    decoder.feed(&stream);
    let (p, _) = frame_of(decoder.next_payload());
    assert_eq!(p, b"[1]".to_vec());
    assert_eq!(decoder.buffered(), 8);
    assert!(matches!(decoder.next_payload(), DecodeStep::Pending));
    decoder.feed(b"Length: 1\r\n\r\n5");
    let (p, _) = frame_of(decoder.next_payload());
    assert_eq!(p, b"5".to_vec());
}
