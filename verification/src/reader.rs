//! The socket reader's decision logic: what one inbound frame does to the
//! handshake and keepalive state, and which items it forwards to the
//! consumer, in order.
//!
//! The surrounding task loop performs the waiting and the channel sends;
//! it feeds every frame through [`Reader::handle_frame`] and carries out
//! the returned step: forward the items, then continue or stop.

use crate::codec::dec_val;
use crate::codec::decode_message;
use crate::codec::msg_text;
use crate::codec::parse_u64_dec;
use crate::codec::parses_as_u64;
use crate::errors::StreamError;
use crate::handshake::observe_fires;
use crate::handshake::Handshake;
use crate::keepalive::pong_update;
use crate::keepalive::Ping;
use crate::messages::ChatMessage;
use crate::messages::ChatMessageView;
use crate::messages::SocketMessage;
use crate::messages::SocketMessageView;
use crate::stream::item_view;
use crate::stream::ok_items;
use crate::stream::Continuation;
use vstd::prelude::*;

verus! {

/// The reader's protocol state: the pending handshake and the keepalive
/// bookkeeping it updates on acknowledgements.
#[derive(Debug)]
pub struct Reader {
    pub auth: Handshake,
    pub ping: Ping,
}

/// The mathematical value of the reader state.
pub struct ReaderView {
    pub nonce: Seq<u8>,
    pub completed: bool,
    pub ping: Ping,
}

impl View for Reader {
    type V = ReaderView;

    open spec fn view(&self) -> ReaderView {
        ReaderView {
            nonce: self.auth.nonce@,
            completed: self.auth.completed,
            ping: self.ping,
        }
    }
}

/// What handling one event asks the task loop to do.
#[derive(Debug)]
pub struct ReaderStep {
    /// Items to forward to the consumer, in this order.
    pub forward: Vec<Result<ChatMessage, StreamError>>,
    /// Whether the reader task keeps running.
    pub cont: Continuation,
    /// Whether this event resolved the handshake.
    pub auth_fired: bool,
}

/// The mathematical value of a reader step.
pub struct ReaderStepView {
    pub forward: Seq<Result<ChatMessageView, StreamError>>,
    pub cont: Continuation,
    pub auth_fired: bool,
}

impl View for ReaderStep {
    type V = ReaderStepView;

    open spec fn view(&self) -> ReaderStepView {
        ReaderStepView {
            forward: self.forward@.map_values(|r| item_view(r)),
            cont: self.cont,
            auth_fired: self.auth_fired,
        }
    }
}

/// How one decoded socket message changes the reader state, and what it
/// asks the task loop to do:
/// - a `Response` resolves the handshake exactly when its nonce matches
///   and the handshake is still pending; it has no other effect;
/// - a `Pong` whose nonce reads as a number acts on the keepalive state
///   (stale iterations are ignored); any other nonce is ignored;
/// - a `Chat` forwards its items, in order;
/// - an inbound `Auth` or `Ping` is a protocol violation: the stream ends
///   with an error.
pub open spec fn dispatch_spec(r: ReaderView, m: SocketMessageView) -> (ReaderView, ReaderStepView) {
    match m {
        SocketMessageView::Response { nonce } => {
            let fired = observe_fires(r.completed, r.nonce, nonce);
            (
                ReaderView { nonce: r.nonce, completed: r.completed || fired, ping: r.ping },
                ReaderStepView {
                    forward: Seq::empty(),
                    cont: Continuation::Continue,
                    auth_fired: fired,
                },
            )
        },
        SocketMessageView::Pong { nonce, gap } => {
            let p2 = if parses_as_u64(nonce) {
                pong_update(r.ping, dec_val(nonce) as u64, gap)
            } else {
                r.ping
            };
            (
                ReaderView { nonce: r.nonce, completed: r.completed, ping: p2 },
                ReaderStepView {
                    forward: Seq::empty(),
                    cont: Continuation::Continue,
                    auth_fired: false,
                },
            )
        },
        SocketMessageView::Chat { chats } => (
            r,
            ReaderStepView {
                forward: ok_items(chats),
                cont: Continuation::Continue,
                auth_fired: false,
            },
        ),
        _ => (
            r,
            ReaderStepView {
                forward: seq![Result::Err(StreamError::Protocol)],
                cont: Continuation::Stop,
                auth_fired: false,
            },
        ),
    }
}

/// Wraps chat items as successful results, keeping their order.
#[verifier::loop_isolation(false)]
fn ok_results(chats: Vec<ChatMessage>) -> (r: Vec<Result<ChatMessage, StreamError>>)
    ensures
        r@.map_values(|x| item_view(x)) == ok_items(chats.deep_view()),
{
    let ghost all = chats.deep_view();
    let mut rest = chats;
    let n_total = rest.len();
    let mut out: Vec<Result<ChatMessage, StreamError>> = Vec::new();
    proof {
        assert(all.len() == n_total);
        assert(out@.map_values(|x| item_view(x)) =~= ok_items(all.take(0)));
    }
    while rest.len() > 0
        invariant
            out@.len() + rest@.len() == n_total,
            forall|k: int| 0 <= k < rest@.len() ==> rest@[k]@ == all[out@.len() + k],
            out@.map_values(|x| item_view(x)) =~= ok_items(all.take(out@.len() as int)),
        decreases rest@.len(),
    {
        let ghost prev = rest@;
        let ghost n = out@.len() as int;
        let c = rest.remove(0);
        proof {
            assert(c@ == all[n]);
            assert(forall|k: int|
                0 <= k < rest@.len() ==> rest@[k] == prev[k + 1] && rest@[k]@ == all[n + 1 + k]);
        }
        let ghost prev_out = out@.map_values(|x| item_view(x));
        out.push(Ok(c));
        proof {
            assert(out@.map_values(|x| item_view(x)) =~= prev_out.push(Result::Ok(c@)));
            assert(ok_items(all.take(n + 1)) =~= ok_items(all.take(n)).push(Result::Ok(all[n])));
        }
    }
    proof {
        assert(all.take(out@.len() as int) =~= all);
    }
    out
}

impl Reader {
    /// A reader waiting for the response to `nonce`, with fresh
    /// keepalive state.
    pub fn new(nonce: Vec<u8>) -> (r: Reader)
        ensures
            r@.nonce == nonce@,
            !r@.completed,
            r@.ping == (Ping {
                interval_secs: crate::keepalive::DEFAULT_PING_INTERVAL_SECS,
                iteration: 0,
                acknowledged: 0,
            }),
    {
        Reader { auth: Handshake::new(nonce), ping: Ping::default() }
    }

    /// Handles one decoded socket message.
    pub fn handle_socket_message(&mut self, msg: SocketMessage) -> (step: ReaderStep)
        ensures
            (final(self)@, step@) == dispatch_spec(old(self)@, msg@),
    {
        match msg {
            SocketMessage::Response { nonce } => {
                let fired = self.auth.observe_response(&nonce);
                let step = ReaderStep {
                    forward: Vec::new(),
                    cont: Continuation::Continue,
                    auth_fired: fired,
                };
                proof {
                    assert(step@.forward =~= Seq::<
                        Result<ChatMessageView, StreamError>,
                    >::empty());
                }
                step
            },
            SocketMessage::Pong { nonce, gap } => {
                match parse_u64_dec(&nonce) {
                    Some(it) => self.ping.handle_pong(it, gap),
                    None => {},
                }
                let step = ReaderStep {
                    forward: Vec::new(),
                    cont: Continuation::Continue,
                    auth_fired: false,
                };
                proof {
                    assert(step@.forward =~= Seq::<
                        Result<ChatMessageView, StreamError>,
                    >::empty());
                }
                step
            },
            SocketMessage::Chat { chats } => {
                let forward = ok_results(chats);
                ReaderStep { forward, cont: Continuation::Continue, auth_fired: false }
            },
            _ => {
                let mut forward: Vec<Result<ChatMessage, StreamError>> = Vec::new();
                forward.push(Err(StreamError::Protocol));
                let step = ReaderStep { forward, cont: Continuation::Stop, auth_fired: false };
                proof {
                    assert(step@.forward =~= seq![
                        Result::<ChatMessageView, StreamError>::Err(StreamError::Protocol),
                    ]);
                }
                step
            },
        }
    }

    /// Handles one inbound frame:
    /// - a text or binary frame is decoded and dispatched; a frame that
    ///   is no canonical message text ends the stream with a decode
    ///   error;
    /// - a close frame ends the stream with a socket-closed error;
    /// - transport-level ping and pong frames are deliberately left
    ///   unhandled: they change nothing and the task keeps running.
    pub fn handle_frame(&mut self, frame: Frame) -> (step: ReaderStep)
        ensures
            frame matches Frame::Close ==> final(self)@ == old(self)@ && step@.cont
                == Continuation::Stop && step@.forward == seq![
                Result::<ChatMessageView, StreamError>::Err(StreamError::SocketClosed),
            ] && !step@.auth_fired,
            (frame matches Frame::Ping(b) ==> final(self)@ == old(self)@ && step@.cont
                == Continuation::Continue && step@.forward == Seq::<
                Result<ChatMessageView, StreamError>,
            >::empty() && !step@.auth_fired),
            (frame matches Frame::Pong(b) ==> final(self)@ == old(self)@ && step@.cont
                == Continuation::Continue && step@.forward == Seq::<
                Result<ChatMessageView, StreamError>,
            >::empty() && !step@.auth_fired),
            forall|mv: SocketMessageView|
                (frame_text(frame) matches Some(b) && b == msg_text(mv)) ==> (final(self)@, step@)
                    == dispatch_spec(old(self)@, mv),
            ((frame_text(frame) matches Some(b) && (forall|mv: SocketMessageView|
                b != msg_text(mv))) ==> final(self)@ == old(self)@ && step@.cont
                == Continuation::Stop && step@.forward == seq![
                Result::<ChatMessageView, StreamError>::Err(StreamError::Decode),
            ] && !step@.auth_fired),
    {
        match frame {
            Frame::Text(b) | Frame::Binary(b) => {
                match decode_message(&b) {
                    Some(m) => self.handle_socket_message(m),
                    None => {
                        let mut forward: Vec<Result<ChatMessage, StreamError>> = Vec::new();
                        forward.push(Err(StreamError::Decode));
                        let step = ReaderStep {
                            forward,
                            cont: Continuation::Stop,
                            auth_fired: false,
                        };
                        proof {
                            assert(step@.forward =~= seq![
                                Result::<ChatMessageView, StreamError>::Err(StreamError::Decode),
                            ]);
                        }
                        step
                    },
                }
            },
            Frame::Close => {
                let mut forward: Vec<Result<ChatMessage, StreamError>> = Vec::new();
                forward.push(Err(StreamError::SocketClosed));
                let step = ReaderStep { forward, cont: Continuation::Stop, auth_fired: false };
                proof {
                    assert(step@.forward =~= seq![
                        Result::<ChatMessageView, StreamError>::Err(StreamError::SocketClosed),
                    ]);
                }
                step
            },
            Frame::Ping(_) | Frame::Pong(_) => {
                let step = ReaderStep {
                    forward: Vec::new(),
                    cont: Continuation::Continue,
                    auth_fired: false,
                };
                proof {
                    assert(step@.forward =~= Seq::<
                        Result<ChatMessageView, StreamError>,
                    >::empty());
                }
                step
            },
        }
    }
}

/// One frame as the transport hands it over.
#[derive(Debug)]
pub enum Frame {
    /// A text frame's bytes.
    Text(Vec<u8>),
    /// A binary frame's bytes.
    Binary(Vec<u8>),
    /// A transport-level ping.
    Ping(Vec<u8>),
    /// A transport-level pong.
    Pong(Vec<u8>),
    /// The peer closed the socket.
    Close,
}

/// The bytes a text or binary frame carries.
pub open spec fn frame_text(f: Frame) -> Option<Seq<u8>> {
    match f {
        Frame::Text(b) => Option::Some(b@),
        Frame::Binary(b) => Option::Some(b@),
        _ => Option::None,
    }
}

} // verus!
