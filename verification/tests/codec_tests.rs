use trovo_chatbot::codec::decode_message;
use trovo_chatbot::codec::encode_message;
use trovo_chatbot::codec::parse_u64_dec;
use trovo_chatbot::codec::u64_to_dec;
use trovo_chatbot::messages::ChatMessage;
use trovo_chatbot::messages::SocketMessage;

fn chat(sender: Option<i64>, nick: &[u8], content: &[u8], time: i64) -> ChatMessage {
    ChatMessage::new(sender, nick.to_vec(), content.to_vec(), time)
}

#[test]
fn encode_auth_text() {
    let m = SocketMessage::Auth { nonce: b"N1".to_vec(), token: b"T1".to_vec() };
    let text = encode_message(&m);
    assert_eq!(
        text,
        b"{\"type\":\"AUTH\",\"nonce\":\"N1\",\"data\":{\"token\":\"T1\"}}".to_vec()
    );
}

#[test]
fn encode_response_text() {
    let m = SocketMessage::Response { nonce: b"abc".to_vec() };
    assert_eq!(
        encode_message(&m),
        b"{\"type\":\"RESPONSE\",\"nonce\":\"abc\"}".to_vec()
    );
}

#[test]
fn encode_ping_text() {
    let m = SocketMessage::Ping { nonce: b"7".to_vec() };
    assert_eq!(encode_message(&m), b"{\"type\":\"PING\",\"nonce\":\"7\"}".to_vec());
}

#[test]
fn encode_pong_text() {
    let m = SocketMessage::Pong { nonce: b"3".to_vec(), gap: 45 };
    assert_eq!(
        encode_message(&m),
        b"{\"type\":\"PONG\",\"nonce\":\"3\",\"data\":{\"gap\":45}}".to_vec()
    );
}

#[test]
fn encode_chat_text() {
    let m = SocketMessage::Chat { chats: vec![chat(None, b"sys", b"hi", 100)] };
    assert_eq!(
        encode_message(&m),
        b"{\"type\":\"CHAT\",\"data\":{\"chats\":[{\"sender_id\":null,\"nick_name\":\"sys\",\"content\":\"hi\",\"send_time\":100}]}}".to_vec()
    );
}

#[test]
fn encode_chat_two_items_and_negative_time() {
    let m = SocketMessage::Chat {
        chats: vec![chat(Some(5), b"a", b"x", -3), chat(None, b"b", b"y", 0)],
    };
    assert_eq!(
        encode_message(&m),
        b"{\"type\":\"CHAT\",\"data\":{\"chats\":[{\"sender_id\":5,\"nick_name\":\"a\",\"content\":\"x\",\"send_time\":-3},{\"sender_id\":null,\"nick_name\":\"b\",\"content\":\"y\",\"send_time\":0}]}}".to_vec()
    );
}

#[test]
fn encode_escapes_quotes_and_backslashes() {
    let m = SocketMessage::Response { nonce: b"a\"b\\c".to_vec() };
    assert_eq!(
        encode_message(&m),
        b"{\"type\":\"RESPONSE\",\"nonce\":\"a\\\"b\\\\c\"}".to_vec()
    );
}

#[test]
fn encoded_messages_are_json() {
    let m = SocketMessage::Pong { nonce: b"12".to_vec(), gap: 30 };
    let text = encode_message(&m);
    let v: serde_json::Value = serde_json::from_slice(&text).unwrap();
    assert_eq!(v["type"], serde_json::Value::String("PONG".to_string()));
    assert_eq!(v["nonce"], serde_json::Value::String("12".to_string()));
    assert_eq!(v["data"]["gap"], serde_json::Value::from(30u64));
}

#[test]
fn chat_item_is_json_with_expected_fields() {
    let m = SocketMessage::Chat { chats: vec![chat(Some(-9), b"n\"k", b"c\\d", 42)] };
    let text = encode_message(&m);
    let v: serde_json::Value = serde_json::from_slice(&text).unwrap();
    let item = &v["data"]["chats"][0];
    assert_eq!(item["sender_id"], serde_json::Value::from(-9i64));
    assert_eq!(item["nick_name"], serde_json::Value::String("n\"k".to_string()));
    assert_eq!(item["content"], serde_json::Value::String("c\\d".to_string()));
    assert_eq!(item["send_time"], serde_json::Value::from(42i64));
}

fn assert_round_trip(m: SocketMessage) {
    let text = encode_message(&m);
    let back = decode_message(&text).unwrap();
    assert_eq!(encode_message(&back), text);
}

#[test]
fn decode_inverts_encode() {
    assert_round_trip(SocketMessage::Auth { nonce: b"N".to_vec(), token: b"T".to_vec() });
    assert_round_trip(SocketMessage::Response { nonce: b"".to_vec() });
    assert_round_trip(SocketMessage::Ping { nonce: b"42".to_vec() });
    assert_round_trip(SocketMessage::Pong { nonce: b"9".to_vec(), gap: u64::MAX });
    assert_round_trip(SocketMessage::Chat { chats: vec![] });
    assert_round_trip(SocketMessage::Chat {
        chats: vec![
            chat(Some(i64::MIN), b"a\\", b"\"", i64::MAX),
            chat(None, b"", b"", i64::MIN),
            chat(Some(0), b"x", b"y z", 7),
        ],
    });
}

#[test]
fn decode_returns_the_encoded_message() {
    let text = b"{\"type\":\"PONG\",\"nonce\":\"8\",\"data\":{\"gap\":60}}".to_vec();
    match decode_message(&text).unwrap() {
        SocketMessage::Pong { nonce, gap } => {
            assert_eq!(nonce, b"8".to_vec());
            assert_eq!(gap, 60);
        }
        other => panic!("wrong kind: {:?}", other),
    }
}

#[test]
fn decode_chat_batch() {
    let text = b"{\"type\":\"CHAT\",\"data\":{\"chats\":[{\"sender_id\":null,\"nick_name\":\"sys\",\"content\":\"hi\",\"send_time\":100}]}}".to_vec();
    match decode_message(&text).unwrap() {
        SocketMessage::Chat { chats } => {
            assert_eq!(chats.len(), 1);
            assert_eq!(chats[0].sender_id, None);
            assert_eq!(chats[0].nick_name, b"sys".to_vec());
            assert_eq!(chats[0].content, b"hi".to_vec());
            assert_eq!(chats[0].send_time, 100);
        }
        other => panic!("wrong kind: {:?}", other),
    }
}

#[test]
fn decode_rejects_non_canonical_texts() {
    assert!(decode_message(&b"".to_vec()).is_none());
    assert!(decode_message(&b"{}".to_vec()).is_none());
    assert!(decode_message(&b"{\"type\":\"NOPE\",\"nonce\":\"1\"}".to_vec()).is_none());
    // trailing bytes
    assert!(decode_message(&b"{\"type\":\"PING\",\"nonce\":\"1\"} ".to_vec()).is_none());
    // whitespace inside is not canonical
    assert!(decode_message(&b"{\"type\": \"PING\",\"nonce\":\"1\"}".to_vec()).is_none());
    // a number with a leading zero is not canonical
    assert!(
        decode_message(&b"{\"type\":\"PONG\",\"nonce\":\"1\",\"data\":{\"gap\":007}}".to_vec())
            .is_none()
    );
    // an unescaped quote cannot appear in a string
    assert!(decode_message(&b"{\"type\":\"PING\",\"nonce\":\"a\"b\"}".to_vec()).is_none());
}

#[test]
fn u64_to_dec_writes_decimal_digits() {
    assert_eq!(u64_to_dec(0), b"0".to_vec());
    assert_eq!(u64_to_dec(7), b"7".to_vec());
    assert_eq!(u64_to_dec(30), b"30".to_vec());
    assert_eq!(u64_to_dec(18446744073709551615), b"18446744073709551615".to_vec());
}

#[test]
fn parse_u64_dec_reads_digit_runs() {
    assert_eq!(parse_u64_dec(&b"42".to_vec()), Some(42));
    assert_eq!(parse_u64_dec(&b"007".to_vec()), Some(7));
    assert_eq!(parse_u64_dec(&b"0".to_vec()), Some(0));
    assert_eq!(parse_u64_dec(&b"18446744073709551615".to_vec()), Some(u64::MAX));
    assert_eq!(parse_u64_dec(&b"18446744073709551616".to_vec()), None);
    assert_eq!(parse_u64_dec(&b"".to_vec()), None);
    assert_eq!(parse_u64_dec(&b"12a".to_vec()), None);
    assert_eq!(parse_u64_dec(&b"-1".to_vec()), None);
}
