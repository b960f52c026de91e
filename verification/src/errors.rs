//! Error taxonomy of the chat engine.

use vstd::prelude::*;
use vstd::string::StringExecFns;

verus! {

/// Why a connection attempt failed: the socket could not be opened, or it
/// closed before the handshake resolved.
#[derive(Clone, Copy, Debug, PartialEq, Eq, Structural)]
pub enum ConnectError {
    /// The transport could not open the socket.
    Transport,
    /// The socket closed before the auth response arrived.
    SocketClosed,
}

/// Why a live stream ended: each value is fatal to the stream and is
/// forwarded once to the consumer as its final item.
#[derive(Clone, Copy, Debug, PartialEq, Eq, Structural)]
pub enum StreamError {
    /// The socket closed after the handshake.
    SocketClosed,
    /// An inbound frame did not decode as a socket message.
    Decode,
    /// The transport failed while reading or sending.
    Transport,
    /// The server sent a message kind it never should.
    Protocol,
}

/// A REST response that the caller cannot use: any status other than
/// success, after retries where those apply. Carries the status and the
/// raw body for diagnostics.
#[derive(Clone, Debug, PartialEq, Eq)]
pub struct InvalidResponse {
    pub code: u16,
    pub response: String,
}

/// A logic-invariant violation: the retry loop ended without a result.
/// Must never occur; kept distinct so it is never mistaken for a
/// server-side failure.
#[derive(Clone, Copy, Debug, PartialEq, Eq, Structural)]
pub struct EmptyError;

impl InvalidResponse {
    /// The human-readable account of this error.
    pub fn message(&self) -> (r: String)
        ensures
            r@ == "Caught an invalid response"@,
    {
        String::from_str("Caught an invalid response")
    }
}

impl EmptyError {
    /// The human-readable account of this error.
    pub fn message(&self) -> (r: String)
        ensures
            r@ == "Empty error"@,
    {
        String::from_str("Empty error")
    }
}

} // verus!
