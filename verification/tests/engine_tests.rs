use trovo_chatbot::codec::encode_message;
use trovo_chatbot::connect::begin_connect;
use trovo_chatbot::connect::ConnectProgress;
use trovo_chatbot::errors::ConnectError;
use trovo_chatbot::errors::StreamError;
use trovo_chatbot::executor::run_attempts;
use trovo_chatbot::executor::ExecAction;
use trovo_chatbot::executor::ExecOutcome;
use trovo_chatbot::executor::Executor;
use trovo_chatbot::executor::RestResponse;
use trovo_chatbot::handshake::Handshake;
use trovo_chatbot::keepalive::Ping;
use trovo_chatbot::messages::ChatMessage;
use trovo_chatbot::messages::SocketMessage;
use trovo_chatbot::reader::Frame;
use trovo_chatbot::reader::Reader;
use trovo_chatbot::stream::ChatMessageStream;
use trovo_chatbot::stream::Continuation;
use trovo_chatbot::stream::PollNext;

fn resp(status: u16, body: &str) -> RestResponse {
    RestResponse { status, body: body.to_string() }
}

fn chat(sender: Option<i64>, nick: &[u8], content: &[u8], time: i64) -> ChatMessage {
    ChatMessage::new(sender, nick.to_vec(), content.to_vec(), time)
}

#[test]
fn five_unauthorized_responses_exhaust_the_executor() {
    let responses = vec![
        resp(401, "e1"),
        resp(401, "e2"),
        resp(401, "e3"),
        resp(401, "e4"),
        resp(401, "e5"),
    ];
    let report = run_attempts(&responses);
    assert_eq!(report.attempts, 5);
    assert_eq!(report.refreshes, 4);
    match report.outcome {
        ExecOutcome::Invalid(i) => {
            assert_eq!(i.code, 401);
            assert_eq!(i.response, "e5".to_string());
        }
        other => panic!("wrong outcome: {:?}", other),
    }
}

#[test]
fn success_on_the_fifth_attempt_costs_four_refreshes() {
    let responses = vec![
        resp(401, ""),
        resp(401, ""),
        resp(401, ""),
        resp(401, ""),
        resp(200, "payload"),
    ];
    let report = run_attempts(&responses);
    assert_eq!(report.attempts, 5);
    assert_eq!(report.refreshes, 4);
    match report.outcome {
        ExecOutcome::Success(b) => assert_eq!(b, "payload".to_string()),
        other => panic!("wrong outcome: {:?}", other),
    }
}

#[test]
fn immediate_success_needs_one_attempt() {
    let responses = vec![
        resp(200, "ok"),
        resp(401, ""),
        resp(401, ""),
        resp(401, ""),
        resp(401, ""),
    ];
    let report = run_attempts(&responses);
    assert_eq!(report.attempts, 1);
    assert_eq!(report.refreshes, 0);
    match report.outcome {
        ExecOutcome::Success(b) => assert_eq!(b, "ok".to_string()),
        other => panic!("wrong outcome: {:?}", other),
    }
}

#[test]
fn any_other_status_fails_without_retry() {
    let responses = vec![
        resp(404, "missing"),
        resp(200, ""),
        resp(200, ""),
        resp(200, ""),
        resp(200, ""),
    ];
    let report = run_attempts(&responses);
    assert_eq!(report.attempts, 1);
    assert_eq!(report.refreshes, 0);
    match report.outcome {
        ExecOutcome::Invalid(i) => {
            assert_eq!(i.code, 404);
            assert_eq!(i.response, "missing".to_string());
        }
        other => panic!("wrong outcome: {:?}", other),
    }
}

#[test]
fn step_asks_for_refresh_until_the_fifth_attempt() {
    let mut ex = Executor::new();
    for _ in 0..4 {
        match ex.step(&resp(401, "no")) {
            ExecAction::Refresh => {}
            other => panic!("expected a refresh: {:?}", other),
        }
    }
    match ex.step(&resp(401, "no")) {
        ExecAction::Done(ExecOutcome::Invalid(i)) => assert_eq!(i.code, 401),
        other => panic!("expected the failure: {:?}", other),
    }
}

#[test]
fn keepalive_starts_at_the_default_interval() {
    let p = Ping::default();
    assert_eq!(p.interval_secs, 30);
    assert_eq!(p.iteration, 0);
    assert_eq!(p.acknowledged, 0);
}

#[test]
fn next_ping_counts_iterations_and_names_them() {
    let mut p = Ping::default();
    p.next_ping();
    let msg = p.next_ping();
    assert_eq!(p.iteration, 2);
    match msg {
        SocketMessage::Ping { nonce } => assert_eq!(nonce, b"2".to_vec()),
        other => panic!("wrong message: {:?}", other),
    }
}

#[test]
fn fresh_pong_moves_the_interval_and_stale_pong_does_not() {
    let mut p = Ping::default();
    p.next_ping();
    p.next_ping();
    p.handle_pong(1, 10);
    assert_eq!(p.acknowledged, 1);
    assert_eq!(p.interval_secs, 10);
    // a stale acknowledgement changes nothing
    p.handle_pong(1, 99);
    assert_eq!(p.acknowledged, 1);
    assert_eq!(p.interval_secs, 10);
    p.handle_pong(0, 77);
    assert_eq!(p.acknowledged, 1);
    assert_eq!(p.interval_secs, 10);
    // a fresh one moves both
    p.handle_pong(2, 20);
    assert_eq!(p.acknowledged, 2);
    assert_eq!(p.interval_secs, 20);
}

#[test]
fn handshake_fires_once_and_only_on_a_match() {
    let mut h = Handshake::new(b"nonce1".to_vec());
    assert!(!h.observe_response(&b"other".to_vec()));
    assert!(!h.completed);
    assert!(h.observe_response(&b"nonce1".to_vec()));
    assert!(h.completed);
    // a replay of the same response no longer fires
    assert!(!h.observe_response(&b"nonce1".to_vec()));
    assert!(h.completed);
}

#[test]
fn reader_forwards_batches_in_order() {
    let mut r = Reader::new(b"n".to_vec());
    let step = r.handle_socket_message(SocketMessage::Chat {
        chats: vec![chat(Some(1), b"a", b"one", 1), chat(Some(2), b"b", b"two", 2)],
    });
    assert_eq!(step.cont, Continuation::Continue);
    assert_eq!(step.forward.len(), 2);
    assert_eq!(step.forward[0].as_ref().unwrap().content, b"one".to_vec());
    assert_eq!(step.forward[1].as_ref().unwrap().content, b"two".to_vec());
}

#[test]
fn reader_updates_keepalive_from_pongs_and_ignores_bad_nonces() {
    let mut r = Reader::new(b"n".to_vec());
    r.ping.next_ping();
    r.handle_socket_message(SocketMessage::Pong { nonce: b"1".to_vec(), gap: 12 });
    assert_eq!(r.ping.acknowledged, 1);
    assert_eq!(r.ping.interval_secs, 12);
    r.handle_socket_message(SocketMessage::Pong { nonce: b"zz".to_vec(), gap: 50 });
    assert_eq!(r.ping.acknowledged, 1);
    assert_eq!(r.ping.interval_secs, 12);
}

#[test]
fn inbound_auth_is_a_protocol_violation() {
    let mut r = Reader::new(b"n".to_vec());
    let step = r.handle_socket_message(SocketMessage::Auth {
        nonce: b"x".to_vec(),
        token: b"y".to_vec(),
    });
    assert_eq!(step.cont, Continuation::Stop);
    assert_eq!(step.forward.len(), 1);
    assert_eq!(step.forward[0], Err(StreamError::Protocol));
}

#[test]
fn undecodable_frames_end_the_stream() {
    let mut r = Reader::new(b"n".to_vec());
    let step = r.handle_frame(Frame::Text(b"not a message".to_vec()));
    assert_eq!(step.cont, Continuation::Stop);
    assert_eq!(step.forward[0], Err(StreamError::Decode));
}

#[test]
fn close_frames_end_the_stream() {
    let mut r = Reader::new(b"n".to_vec());
    let step = r.handle_frame(Frame::Close);
    assert_eq!(step.cont, Continuation::Stop);
    assert_eq!(step.forward[0], Err(StreamError::SocketClosed));
}

#[test]
fn transport_pings_are_left_unhandled() {
    let mut r = Reader::new(b"n".to_vec());
    let step = r.handle_frame(Frame::Ping(b"x".to_vec()));
    assert_eq!(step.cont, Continuation::Continue);
    assert!(step.forward.is_empty());
}

#[test]
fn connect_succeeds_when_the_server_echoes_the_nonce() {
    let (mut attempt, auth_frame) = begin_connect(b"abc123".to_vec(), b"T1".to_vec());
    assert_eq!(
        auth_frame,
        b"{\"type\":\"AUTH\",\"nonce\":\"abc123\",\"data\":{\"token\":\"T1\"}}".to_vec()
    );
    let echo = encode_message(&SocketMessage::Response { nonce: b"abc123".to_vec() });
    assert_eq!(attempt.observe_frame(Frame::Text(echo)), ConnectProgress::Connected);
}

#[test]
fn connect_ignores_responses_with_other_nonces() {
    let (mut attempt, _) = begin_connect(b"abc123".to_vec(), b"T1".to_vec());
    let other = encode_message(&SocketMessage::Response { nonce: b"zzz".to_vec() });
    assert_eq!(attempt.observe_frame(Frame::Text(other)), ConnectProgress::Pending);
}

#[test]
fn connect_fails_when_the_socket_closes_first() {
    let (mut attempt, _) = begin_connect(b"abc123".to_vec(), b"T1".to_vec());
    assert_eq!(
        attempt.observe_frame(Frame::Close),
        ConnectProgress::Failed(ConnectError::SocketClosed)
    );
}

#[test]
fn batches_are_delivered_in_receive_order() {
    let mut s = ChatMessageStream::new();
    let a = chat(Some(1), b"n", b"a", 1);
    let b = chat(Some(2), b"n", b"b", 2);
    let c = chat(Some(3), b"n", b"c", 3);
    assert_eq!(s.push_batch(vec![a, b]), Continuation::Continue);
    assert_eq!(s.push_batch(vec![c]), Continuation::Continue);
    for expected in [b"a".to_vec(), b"b".to_vec(), b"c".to_vec()] {
        match s.poll_next() {
            PollNext::Ready(Some(Ok(m))) => assert_eq!(m.content, expected),
            other => panic!("wrong poll: {:?}", other),
        }
    }
    // nothing more arrived and the stream is still open
    assert!(matches!(s.poll_next(), PollNext::Pending));
}

#[test]
fn reader_steps_feed_the_stream_in_order() {
    let mut r = Reader::new(b"n".to_vec());
    let mut s = ChatMessageStream::new();
    let step1 = r.handle_socket_message(SocketMessage::Chat {
        chats: vec![chat(None, b"x", b"a", 1), chat(None, b"x", b"b", 2)],
    });
    let step2 = r.handle_socket_message(SocketMessage::Chat {
        chats: vec![chat(None, b"x", b"c", 3)],
    });
    assert_eq!(s.push_items(step1.forward), Continuation::Continue);
    assert_eq!(s.push_items(step2.forward), Continuation::Continue);
    for expected in [b"a".to_vec(), b"b".to_vec(), b"c".to_vec()] {
        match s.poll_next() {
            PollNext::Ready(Some(Ok(m))) => assert_eq!(m.content, expected),
            other => panic!("wrong poll: {:?}", other),
        }
    }
}

#[test]
fn close_ends_the_stream_no_matter_how_often() {
    let mut s = ChatMessageStream::new();
    s.push_batch(vec![chat(None, b"n", b"pending", 1)]);
    s.close();
    // the undelivered item is never delivered
    assert!(matches!(s.poll_next(), PollNext::Ready(None)));
    s.close();
    s.close();
    assert!(matches!(s.poll_next(), PollNext::Ready(None)));
    // and nothing can be delivered any more
    assert_eq!(s.push_batch(vec![chat(None, b"n", b"late", 2)]), Continuation::Stop);
    assert!(matches!(s.poll_next(), PollNext::Ready(None)));
}

#[test]
fn a_fatal_error_is_the_last_item() {
    let mut s = ChatMessageStream::new();
    s.push_batch(vec![chat(None, b"n", b"hi", 1)]);
    s.push_error(StreamError::SocketClosed);
    match s.poll_next() {
        PollNext::Ready(Some(Ok(m))) => assert_eq!(m.content, b"hi".to_vec()),
        other => panic!("wrong poll: {:?}", other),
    }
    match s.poll_next() {
        PollNext::Ready(Some(Err(e))) => assert_eq!(e, StreamError::SocketClosed),
        other => panic!("wrong poll: {:?}", other),
    }
    assert!(matches!(s.poll_next(), PollNext::Ready(None)));
}

#[test]
fn a_finished_stream_ends_after_its_items() {
    let mut s = ChatMessageStream::new();
    s.push_batch(vec![chat(None, b"sys", b"hi", 100)]);
    s.finish();
    match s.poll_next() {
        PollNext::Ready(Some(Ok(m))) => {
            assert_eq!(m.content, b"hi".to_vec());
            assert_eq!(m.send_time, 100);
        }
        other => panic!("wrong poll: {:?}", other),
    }
    assert!(matches!(s.poll_next(), PollNext::Ready(None)));
}
