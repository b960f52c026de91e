//! Connection establishment: building the auth command and waiting for
//! its acknowledgement.
//!
//! The surrounding code opens the socket, sends the returned auth frame,
//! and feeds every inbound frame to [`ConnectAttempt::observe_frame`]
//! until the attempt reports success or failure. The reader is created
//! before the auth frame is sent, so the acknowledgement cannot be
//! missed.

use crate::codec::encode_message;
use crate::codec::msg_text;
use crate::errors::ConnectError;
use crate::messages::SocketMessage;
use crate::messages::SocketMessageView;
use crate::reader::dispatch_spec;
use crate::reader::frame_text;
use crate::reader::Frame;
use crate::reader::Reader;
use crate::reader::ReaderStepView;
use crate::stream::Continuation;
use vstd::prelude::*;

verus! {

/// The socket endpoint of the chat service.
pub const CHAT_ENDPOINT: &'static str = "wss://open-chat.trovo.live/chat";

/// How far a connection attempt has come.
#[derive(Clone, Copy, Debug, PartialEq, Eq, Structural)]
pub enum ConnectProgress {
    /// The handshake resolved: the connection is ready.
    Connected,
    /// Nothing decisive happened yet; keep feeding frames.
    Pending,
    /// The attempt failed; the socket is of no further use.
    Failed(ConnectError),
}

/// One connection attempt: the reader state waiting for the
/// acknowledgement of the auth command.
#[derive(Debug)]
pub struct ConnectAttempt {
    pub reader: Reader,
}

/// What a reader step means while the handshake is pending: resolving
/// the handshake connects; a stopped reader means the socket is gone
/// before the acknowledgement, which fails the attempt.
pub open spec fn progress_of_step(step: ReaderStepView) -> ConnectProgress {
    if step.auth_fired {
        ConnectProgress::Connected
    } else if step.cont == Continuation::Stop {
        ConnectProgress::Failed(ConnectError::SocketClosed)
    } else {
        ConnectProgress::Pending
    }
}

/// Starts a connection attempt: a reader configured with the nonce, and
/// the auth frame, carrying the nonce and the chat-session token, to
/// send once the reader is watching the socket.
pub fn begin_connect(nonce: Vec<u8>, chat_token: Vec<u8>) -> (r: (ConnectAttempt, Vec<u8>))
    ensures
        r.0.reader@.nonce == nonce@,
        !r.0.reader@.completed,
        r.1@ == msg_text(
            SocketMessageView::Auth { nonce: nonce@, token: chat_token@ },
        ),
{
    let ghost nv = nonce@;
    let msg = SocketMessage::Auth { nonce, token: chat_token };
    let frame = encode_message(&msg);
    let nonce2 = match msg {
        SocketMessage::Auth { nonce, .. } => nonce,
        _ => Vec::new(),
    };
    proof {
        assert(nonce2@ == nv);
    }
    (ConnectAttempt { reader: Reader::new(nonce2) }, frame)
}

impl ConnectAttempt {
    /// Observes one inbound frame while the handshake is pending.
    ///
    /// The attempt connects exactly when the frame is a `Response`
    /// whose nonce matches; it fails when the socket closes, errors or
    /// violates the protocol before that; anything else keeps it
    /// pending.
    pub fn observe_frame(&mut self, frame: Frame) -> (progress: ConnectProgress)
        ensures
            frame matches Frame::Close ==> final(self).reader@ == old(self).reader@ && progress
                == ConnectProgress::Failed(ConnectError::SocketClosed),
            (frame matches Frame::Ping(b) ==> final(self).reader@ == old(self).reader@ && progress
                == ConnectProgress::Pending),
            (frame matches Frame::Pong(b) ==> final(self).reader@ == old(self).reader@ && progress
                == ConnectProgress::Pending),
            forall|mv: SocketMessageView|
                (frame_text(frame) matches Some(b) && b == msg_text(mv)) ==> final(self).reader@
                    == dispatch_spec(old(self).reader@, mv).0 && progress == progress_of_step(
                    dispatch_spec(old(self).reader@, mv).1,
                ),
            ((frame_text(frame) matches Some(b) && (forall|mv: SocketMessageView|
                b != msg_text(mv))) ==> final(self).reader@ == old(self).reader@ && progress
                == ConnectProgress::Failed(ConnectError::SocketClosed)),
    {
        let step = self.reader.handle_frame(frame);
        if step.auth_fired {
            ConnectProgress::Connected
        } else {
            match step.cont {
                Continuation::Stop => ConnectProgress::Failed(ConnectError::SocketClosed),
                Continuation::Continue => ConnectProgress::Pending,
            }
        }
    }
}

} // verus!
