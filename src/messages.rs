//! The JSON-RPC texts this client writes on its own: the handshake request and
//! its confirmation notification, and the reading of a response's identifier.

use vstd::prelude::*;
use vstd::string::StringExecFns;

verus! {

/// Identifier carried by the handshake request and echoed by its response.
pub const HANDSHAKE_REQUEST_ID: u64 = 1;

pub open spec fn hex_digit(n: int) -> char {
    seq!['0', '1', '2', '3', '4', '5', '6', '7', '8', '9', 'a', 'b', 'c', 'd', 'e', 'f'][n]
}

/// How one character appears inside a JSON string literal: quote and
/// backslash escaped, the usual short escapes for backspace, tab, newline,
/// form feed and carriage return, other control characters as `\u00xx`.
pub open spec fn json_escape_char(c: char) -> Seq<char> {
    if c == '"' {
        seq!['\\', '"']
    } else if c == '\\' {
        seq!['\\', '\\']
    } else if c == '\u{8}' {
        seq!['\\', 'b']
    } else if c == '\t' {
        seq!['\\', 't']
    } else if c == '\n' {
        seq!['\\', 'n']
    } else if c == '\u{c}' {
        seq!['\\', 'f']
    } else if c == '\r' {
        seq!['\\', 'r']
    } else if (c as u32) < 0x20 {
        seq!['\\', 'u', '0', '0', hex_digit((c as u32 / 16) as int), hex_digit((c as u32 % 16) as int)]
    } else {
        seq![c]
    }
}

pub open spec fn json_escaped(s: Seq<char>) -> Seq<char>
    decreases s.len(),
{
    if s.len() == 0 {
        Seq::empty()
    } else {
        json_escaped(s.drop_last()) + json_escape_char(s.last())
    }
}

/// The text `s` written as a JSON string literal.
pub open spec fn json_string_literal(s: Seq<char>) -> Seq<char> {
    seq!['"'] + json_escaped(s) + seq!['"']
}

/// The `id` member of a JSON object payload, when it is an unsigned integer.
pub uninterp spec fn json_id_of(payload: Seq<u8>) -> Option<u64>;

/// Whether a payload is a JSON object with a `method` member (a request or a
/// notification rather than a response).
pub uninterp spec fn json_has_method(payload: Seq<u8>) -> bool;

/// Relies on json::stringify: a string value written out as a JSON string literal.
#[verifier::external_body]
fn quote_json(s: &str) -> (r: String)
    ensures
        r@ == json_string_literal(s@),
{
    json::stringify(s)
}

/// Relies on serde_json::from_slice to read the payload as a JSON document, on
/// Value::get to look up its `method` and `id` members, and on Value::as_u64 to
/// read the `id` as an unsigned integer.
#[verifier::external_body]
pub(crate) fn read_envelope(payload: &[u8]) -> (r: (bool, Option<u64>))
    ensures
        r.0 == json_has_method(payload@),
        r.1 == json_id_of(payload@),
{
    match serde_json::from_slice::<serde_json::Value>(payload) {
        Ok(v) => (v.get("method").is_some(), v.get("id").and_then(serde_json::Value::as_u64)),
        Err(_) => (false, None),
    }
}

pub open spec fn initialize_head() -> Seq<char> {
    "{\"jsonrpc\":\"2.0\",\"id\":1,\"method\":\"initialize\",\"params\":{\"clientInfo\":{\"name\":\"mystudio-ide\",\"version\":\"1.0\"},\"capabilities\":{},\"rootPath\":"@
}

pub open spec fn initialize_tail() -> Seq<char> {
    ",\"locale\":\"en\"}}"@
}

/// The handshake request for a workspace rooted at `root`.
pub open spec fn initialize_text(root: Seq<char>) -> Seq<char> {
    initialize_head() + json_string_literal(root) + initialize_tail()
}

/// The confirmation notification: no identifier, empty parameters.
pub open spec fn initialized_text() -> Seq<char> {
    "{\"jsonrpc\":\"2.0\",\"method\":\"initialized\",\"params\":{}}"@
}

/// Builds the handshake request: protocol version, request identifier, client
/// name and version, and the workspace root.
pub fn initialize_request(root: &str) -> (r: String)
    ensures
        r@ == initialize_text(root@),
{
    let quoted = quote_json(root);
    let head = String::from_str(
        "{\"jsonrpc\":\"2.0\",\"id\":1,\"method\":\"initialize\",\"params\":{\"clientInfo\":{\"name\":\"mystudio-ide\",\"version\":\"1.0\"},\"capabilities\":{},\"rootPath\":",
    );
    head.concat(quoted.as_str()).concat(",\"locale\":\"en\"}}")
}

/// Builds the confirmation notification sent once the server has answered the handshake.
pub fn initialized_notification() -> (r: String)
    ensures
        r@ == initialized_text(),
{
    String::from_str("{\"jsonrpc\":\"2.0\",\"method\":\"initialized\",\"params\":{}}")
}

} // verus!
