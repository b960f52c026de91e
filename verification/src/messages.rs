//! Typed socket messages exchanged over the chat connection.

use vstd::prelude::*;

verus! {

/// One chat event, as delivered to the consumer.
///
/// `sender_id` is absent for system messages. A message is immutable once
/// constructed.
#[derive(Clone, Debug, PartialEq, Eq)]
pub struct ChatMessage {
    pub sender_id: Option<i64>,
    pub nick_name: Vec<u8>,
    pub content: Vec<u8>,
    pub send_time: i64,
}

/// A protocol message on the chat socket.
///
/// `nonce` correlates a sent command with its acknowledgement (`Response`).
/// `Pong` carries the server-chosen keepalive gap in seconds.
#[derive(Clone, Debug)]
pub enum SocketMessage {
    Auth { nonce: Vec<u8>, token: Vec<u8> },
    Response { nonce: Vec<u8> },
    Ping { nonce: Vec<u8> },
    Pong { nonce: Vec<u8>, gap: u64 },
    Chat { chats: Vec<ChatMessage> },
}

/// The mathematical value of a [`ChatMessage`]: the same fields with byte
/// strings abstracted to sequences.
pub struct ChatMessageView {
    pub sender_id: Option<i64>,
    pub nick_name: Seq<u8>,
    pub content: Seq<u8>,
    pub send_time: i64,
}

impl View for ChatMessage {
    type V = ChatMessageView;

    open spec fn view(&self) -> ChatMessageView {
        ChatMessageView {
            sender_id: self.sender_id,
            nick_name: self.nick_name@,
            content: self.content@,
            send_time: self.send_time,
        }
    }
}

impl DeepView for ChatMessage {
    type V = ChatMessageView;

    open spec fn deep_view(&self) -> ChatMessageView {
        self@
    }
}

/// The mathematical value of a [`SocketMessage`].
pub enum SocketMessageView {
    Auth { nonce: Seq<u8>, token: Seq<u8> },
    Response { nonce: Seq<u8> },
    Ping { nonce: Seq<u8> },
    Pong { nonce: Seq<u8>, gap: u64 },
    Chat { chats: Seq<ChatMessageView> },
}

impl View for SocketMessage {
    type V = SocketMessageView;

    open spec fn view(&self) -> SocketMessageView {
        match self {
            SocketMessage::Auth { nonce, token } => SocketMessageView::Auth {
                nonce: nonce@,
                token: token@,
            },
            SocketMessage::Response { nonce } => SocketMessageView::Response { nonce: nonce@ },
            SocketMessage::Ping { nonce } => SocketMessageView::Ping { nonce: nonce@ },
            SocketMessage::Pong { nonce, gap } => SocketMessageView::Pong {
                nonce: nonce@,
                gap: *gap,
            },
            SocketMessage::Chat { chats } => SocketMessageView::Chat { chats: chats.deep_view() },
        }
    }
}

impl ChatMessage {
    pub fn new(sender_id: Option<i64>, nick_name: Vec<u8>, content: Vec<u8>, send_time: i64) -> (r:
        ChatMessage)
        ensures
            r.sender_id == sender_id,
            r.nick_name == nick_name,
            r.content == content,
            r.send_time == send_time,
    {
        ChatMessage { sender_id, nick_name, content, send_time }
    }
}

} // verus!
