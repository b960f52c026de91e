//! Client-side engine for a livestreaming platform's chat service.
//!
//! The crate verifies the protocol logic of the chat client: the wire codec
//! for socket messages, the authentication handshake, the keepalive
//! (ping/pong) state, the ordered delivery of chat messages to a consumer,
//! and the bounded token-refresh retry around authenticated REST calls.
//! Network and task plumbing lives outside the library and drives these
//! state machines with plain values.

pub mod auth;
pub mod codec;
pub mod commands;
pub mod config;
pub mod connect;
pub mod errors;
pub mod executor;
pub mod handshake;
pub mod keepalive;
pub mod messages;
pub mod reader;
pub mod server;
pub mod stream;
pub mod structs;
pub mod utils;

pub use messages::ChatMessage;
pub use messages::SocketMessage;
