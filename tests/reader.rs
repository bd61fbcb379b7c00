use mystudio::codec::{encode, FrameDecoder, ProtocolError};
use mystudio::reader::{reader_step, ConnectionEnd, ReadEvent};
use mystudio::session::LspSession;

#[test]
fn immediate_exit_dispatches_nothing() {
    let mut session = LspSession::new();
    session.start("/ws");
    let mut decoder = FrameDecoder::new();
    let step = reader_step(&mut decoder, ReadEvent::EndOfStream);
    assert!(step.incoming.is_empty());
    assert_eq!(step.end, Some(ConnectionEnd::ProcessExited));
    session.mark_dead();
    assert!(session.is_dead());
    assert!(!session.is_open());
}

#[test]
fn read_failure_ends_connection() {
    let mut decoder = FrameDecoder::new();
    let step = reader_step(&mut decoder, ReadEvent::Failed);
    assert!(step.incoming.is_empty());
    assert_eq!(step.end, Some(ConnectionEnd::ReadFailed));
}

#[test]
fn frames_are_tagged_with_their_ids() {
    let mut decoder = FrameDecoder::new();
    let mut bytes = encode(br#"{"jsonrpc":"2.0","id":1,"result":{"capabilities":{}}}"#);
    bytes.extend(encode(br#"{"jsonrpc":"2.0","method":"window/logMessage","params":{}}"#));
    bytes.extend_from_slice(b"Content-Len");
    let step = reader_step(&mut decoder, ReadEvent::Bytes(bytes));
    assert_eq!(step.end, None);
    assert_eq!(step.incoming.len(), 2);
    assert_eq!(step.incoming[0].id, Some(1));
    assert_eq!(step.incoming[1].id, None);
    assert_eq!(decoder.buffered(), 11);

    let step = reader_step(&mut decoder, ReadEvent::Bytes(b"gth: 9\r\n\r\n{\"id\":42}".to_vec()));
    assert_eq!(step.incoming.len(), 1);
    assert_eq!(step.incoming[0].payload, b"{\"id\":42}".to_vec());
    assert_eq!(step.incoming[0].id, Some(42));
}

#[test]
fn malformed_frame_ends_connection_after_good_ones() {
    let mut decoder = FrameDecoder::new();
    let mut bytes = encode(b"{\"id\":5}");
    bytes.extend_from_slice(b"nonsense\r\n\r\n");
    let step = reader_step(&mut decoder, ReadEvent::Bytes(bytes));
    assert_eq!(step.incoming.len(), 1);
    assert_eq!(step.end, Some(ConnectionEnd::Protocol(ProtocolError::MalformedHeader)));
}

#[test]
fn handshake_completes_from_reader_output() {
    let mut session = LspSession::new();
    session.start("/ws");
    session.submit(mystudio::session::ChannelCommData::new("q".to_string(), true));
    let mut decoder = FrameDecoder::new();
    let step = reader_step(&mut decoder, ReadEvent::Bytes(encode(br#"{"id":1,"result":{}}"#)));
    let out = session.on_response(step.incoming[0].response_id());
    assert_eq!(out.len(), 2);
    assert_eq!(out[1], encode(b"q"));
}

#[test]
fn server_requests_answer_nothing() {
    let mut decoder = FrameDecoder::new();
    let bytes = encode(br#"{"jsonrpc":"2.0","id":1,"method":"workspace/configuration","params":{}}"#);
    let step = reader_step(&mut decoder, ReadEvent::Bytes(bytes));
    assert_eq!(step.incoming[0].id, Some(1));
    assert!(step.incoming[0].has_method);
    assert_eq!(step.incoming[0].response_id(), None);
    let mut session = LspSession::new();
    session.start("/ws");
    assert!(session.on_response(step.incoming[0].response_id()).is_empty());
}

#[test]
fn multi_frame_stream_byte_by_byte_matches_one_chunk() {
    let mut stream = encode(br#"{"id":1,"result":{}}"#);
    stream.extend(encode(br#"{"method":"m","params":[]}"#));
    stream.extend(encode(b"{\"id\":9}"));

    let mut whole = FrameDecoder::new();
    let at_once: Vec<Vec<u8>> = reader_step(&mut whole, ReadEvent::Bytes(stream.clone()))
        .incoming
        .into_iter()
        .map(|i| i.payload)
        .collect();
    assert_eq!(at_once.len(), 3);

    let mut decoder = FrameDecoder::new();
    let mut dripped: Vec<Vec<u8>> = Vec::new();
    for b in &stream {
        let step = reader_step(&mut decoder, ReadEvent::Bytes(vec![*b]));
        assert_eq!(step.end, None);
        dripped.extend(step.incoming.into_iter().map(|i| i.payload));
        // Never ahead of the one-chunk delivery.
        assert_eq!(dripped[..], at_once[..dripped.len()]);
    }
    assert_eq!(dripped, at_once);
}
