use mystudio::codec::encode;
use mystudio::messages::{initialize_request, initialized_notification};
use mystudio::session::{ChannelCommData, HandshakeState, LspSession};

fn msg(text: &str, gated: bool) -> ChannelCommData {
    ChannelCommData::new(text.to_string(), gated)
}

fn frame(text: &str) -> Vec<u8> {
    encode(text.as_bytes())
}

const INITIALIZED: &str = r#"{"jsonrpc":"2.0","method":"initialized","params":{}}"#;

#[test]
fn handshake_texts_are_exact() {
    assert_eq!(
        initialize_request("/home/me/ws"),
        r#"{"jsonrpc":"2.0","id":1,"method":"initialize","params":{"clientInfo":{"name":"mystudio-ide","version":"1.0"},"capabilities":{},"rootPath":"/home/me/ws","locale":"en"}}"#
    );
    assert_eq!(
        initialize_request("a\"b\\c"),
        r#"{"jsonrpc":"2.0","id":1,"method":"initialize","params":{"clientInfo":{"name":"mystudio-ide","version":"1.0"},"capabilities":{},"rootPath":"a\"b\\c","locale":"en"}}"#
    );
    assert_eq!(
        initialize_request("t\u{1}\n\u{8}"),
        r#"{"jsonrpc":"2.0","id":1,"method":"initialize","params":{"clientInfo":{"name":"mystudio-ide","version":"1.0"},"capabilities":{},"rootPath":"t\u0001\n\b","locale":"en"}}"#
    );
    assert_eq!(initialized_notification(), INITIALIZED);
}

#[test]
fn gated_requests_wait_for_confirmation() {
    let mut s = LspSession::new();
    assert_eq!(s.handshake_state(), HandshakeState::NotStarted);
    assert!(s.submit(msg("early-gated", true)).is_empty());
    assert!(s.submit(msg("early-free", false)).is_empty());

    // Only the handshake request goes out; everything else stays held.
    let out = s.start("/ws");
    assert_eq!(out, vec![frame(&initialize_request("/ws"))]);
    assert_eq!(s.handshake_state(), HandshakeState::AwaitingServerCapabilities);
    assert_eq!(s.held_count(), 2);

    // Nothing but the handshake request precedes the confirmation.
    assert!(s.submit(msg("free", false)).is_empty());
    assert!(s.submit(msg("gated", true)).is_empty());
    assert_eq!(s.held_count(), 4);

    // A response to some other request does not complete the handshake.
    assert!(s.on_response(Some(2)).is_empty());
    assert!(s.on_response(None).is_empty());

    let out = s.on_response(Some(1));
    assert_eq!(
        out,
        vec![frame(INITIALIZED), frame("early-gated"), frame("early-free"), frame("free"), frame("gated")]
    );
    assert_eq!(s.handshake_state(), HandshakeState::Ready);
    assert_eq!(s.held_count(), 0);

    // The confirmation is written once only.
    assert!(s.on_response(Some(1)).is_empty());
    assert_eq!(s.submit(msg("later", true)), vec![frame("later")]);
    assert_eq!(s.submit(msg("later-free", false)), vec![frame("later-free")]);
}

#[test]
fn start_happens_once() {
    let mut s = LspSession::new();
    assert_eq!(s.start("/ws").len(), 1);
    assert!(s.start("/ws").is_empty());
}

#[test]
fn shutdown_before_start_writes_nothing() {
    let mut s = LspSession::new();
    s.submit(msg("a", true));
    s.shutdown();
    assert!(!s.is_open());
    assert_eq!(s.held_count(), 0);
    assert!(s.start("/ws").is_empty());
    assert!(s.submit(msg("b", false)).is_empty());
    assert!(s.on_response(Some(1)).is_empty());
}

#[test]
fn shutdown_while_awaiting_writes_nothing() {
    let mut s = LspSession::new();
    s.start("/ws");
    s.submit(msg("a", true));
    s.shutdown();
    assert!(s.on_response(Some(1)).is_empty());
    assert!(s.submit(msg("b", false)).is_empty());
    assert_eq!(s.handshake_state(), HandshakeState::AwaitingServerCapabilities);
}

#[test]
fn shutdown_when_ready_writes_nothing() {
    let mut s = LspSession::new();
    s.start("/ws");
    s.on_response(Some(1));
    s.shutdown();
    assert!(s.submit(msg("b", true)).is_empty());
    assert!(s.submit(msg("c", false)).is_empty());
    assert!(!s.is_dead());
}

#[test]
fn message_text_round_trips() {
    let m = msg("{\"id\":3}", true);
    assert_eq!(m.to_string(), "{\"id\":3}");
    assert!(m.requires_handshake_complete);
}
