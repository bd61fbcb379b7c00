//! Core of a desktop code editor's language-server client: the frame codec
//! for header-delimited JSON-RPC, the handshake state machine that gates
//! outbound traffic, the reader step that turns pipe bytes into payloads,
//! and the small workspace/editor models the client is fed from.

pub mod codec;
pub mod messages;
pub mod session;
pub mod reader;
pub mod tab_cache;
pub mod workspace;
pub mod tree;
pub mod encoding;
pub mod config;
