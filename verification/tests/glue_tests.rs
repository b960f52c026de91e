use trovo_chatbot::auth::exchange_token_body;
use trovo_chatbot::auth::login_url;
use trovo_chatbot::auth::refresh_plan;
use trovo_chatbot::auth::refresh_token_body;
use trovo_chatbot::auth::TokenSource;
use trovo_chatbot::commands;
use trovo_chatbot::config::authorization_value;
use trovo_chatbot::config::get_settings;
use trovo_chatbot::server::code_from_query;
use trovo_chatbot::server::code_from_request;
use trovo_chatbot::server::get_params;
use trovo_chatbot::server::oauth_http_response;
use trovo_chatbot::server::vec_to_hashmap;
use trovo_chatbot::utils::random_string;

#[test]
fn get_params_splits_keys_and_values() {
    let r = get_params("key1=value1&key2=value2&key3=value3");
    assert_eq!(
        r,
        vec![
            ("key1".to_string(), "value1".to_string()),
            ("key2".to_string(), "value2".to_string()),
            ("key3".to_string(), "value3".to_string()),
        ]
    );
}

#[test]
fn get_params_takes_the_first_two_pieces_of_a_segment() {
    let r = get_params("a=b=c&d=e");
    assert_eq!(
        r,
        vec![("a".to_string(), "b".to_string()), ("d".to_string(), "e".to_string())]
    );
}

#[test]
fn get_params_keeps_empty_values() {
    let r = get_params("a=&b=2");
    assert_eq!(r, vec![("a".to_string(), "".to_string()), ("b".to_string(), "2".to_string())]);
}

#[test]
fn vec_to_hashmap_maps_keys_to_values() {
    let m = vec_to_hashmap(vec![
        ("code".to_string(), "XYZ".to_string()),
        ("state".to_string(), "1".to_string()),
    ]);
    assert_eq!(m.len(), 2);
    assert_eq!(m["code"], "XYZ".to_string());
    assert_eq!(m["state"], "1".to_string());
}

#[test]
fn code_from_query_finds_the_code() {
    assert_eq!(code_from_query("code=XYZ&foo=bar"), Some("XYZ".to_string()));
    assert_eq!(code_from_query("foo=bar&code=XYZ"), Some("XYZ".to_string()));
    assert_eq!(code_from_query("foo=bar"), None);
    // the last pair wins, as it does in the map
    assert_eq!(code_from_query("code=first&code=second"), Some("second".to_string()));
    // a segment without an equals sign makes the query unusable
    assert_eq!(code_from_query("justakey&code=XYZ"), None);
}

#[test]
fn code_from_request_reads_a_captured_request() {
    // a browser redirect, cut off as the capture's fixed buffer cuts it
    let buf = b"GET /?code=XYZ123&scope=all HTTP/1.1\r\nHost: localhost:15000\r\n".to_vec();
    assert_eq!(code_from_request(&buf), Some("XYZ123".to_string()));
    let no_code = b"GET /?scope=all HTTP/1.1\r\nHost: localhost\r\n".to_vec();
    assert_eq!(code_from_request(&no_code), None);
    let garbage = b"\xff\xfe not http".to_vec();
    assert_eq!(code_from_request(&garbage), None);
}

#[test]
fn the_capture_reply_carries_the_code() {
    assert_eq!(
        oauth_http_response("CODE"),
        b"HTTP/1.1 200 OK\r\nContent-Length: 4\r\n\r\nSuccess CODE".to_vec()
    );
}

#[test]
fn refresh_plan_prefers_a_stored_token() {
    assert!(matches!(refresh_plan(&Vec::new()), TokenSource::RunOauth));
    match refresh_plan(&b"tok".to_vec()) {
        TokenSource::Refresh(t) => assert_eq!(t, b"tok".to_vec()),
        other => panic!("wrong plan: {:?}", other),
    }
}

#[test]
fn token_request_bodies_hold_the_expected_pairs() {
    let ex = exchange_token_body("secret", "thecode", "http://localhost:15000");
    assert_eq!(
        ex,
        vec![
            ("client_secret".to_string(), "secret".to_string()),
            ("grant_type".to_string(), "authorization_code".to_string()),
            ("code".to_string(), "thecode".to_string()),
            ("redirect_uri".to_string(), "http://localhost:15000".to_string()),
        ]
    );
    let rf = refresh_token_body("secret", "rtok");
    assert_eq!(
        rf,
        vec![
            ("client_secret".to_string(), "secret".to_string()),
            ("grant_type".to_string(), "refresh_token".to_string()),
            ("refresh_token".to_string(), "rtok".to_string()),
        ]
    );
}

#[test]
fn the_login_url_names_the_client_and_redirect() {
    assert_eq!(
        login_url("cid", "chat_send_self+manage_messages", "http://localhost:15000"),
        "https://open.trovo.live/page/login.html?client_id=cid&response_type=code&scope=chat_send_self+manage_messages&redirect_uri=http://localhost:15000".to_string()
    );
}

#[test]
fn authorization_header_values_carry_the_token() {
    assert_eq!(authorization_value("abc"), "OAuth abc".to_string());
}

#[test]
fn settings_keep_their_parts() {
    let s = get_settings("id".to_string(), "secret".to_string(), "chan".to_string());
    assert_eq!(s.client_id, "id".to_string());
    assert_eq!(s.client_secret, "secret".to_string());
    assert_eq!(s.target_channel_name, "chan".to_string());
}

#[test]
fn random_strings_have_the_asked_length_and_alphabet() {
    let r = random_string(32);
    assert_eq!(r.len(), 32);
    for b in r {
        assert!(b.is_ascii_alphanumeric());
    }
    assert!(random_string(0).is_empty());
    // two draws almost surely differ; equal draws would suggest the
    // wrapper ignores its generator
    assert_ne!(random_string(32), random_string(32));
}

#[test]
fn command_texts_match_the_chat_grammar() {
    assert_eq!(commands::mods(), b"mods".to_vec());
    assert_eq!(commands::banned(), b"banned".to_vec());
    assert_eq!(commands::ban(&b"user".to_vec(), 0), b"ban user".to_vec());
    assert_eq!(commands::ban(&b"user".to_vec(), 30), b"ban user 30s".to_vec());
    assert_eq!(commands::unban(&b"user".to_vec()), b"unban user".to_vec());
    assert_eq!(commands::mod_(&b"user".to_vec()), b"mod user".to_vec());
    assert_eq!(commands::unmod(&b"user".to_vec()), b"unmod user".to_vec());
    assert_eq!(commands::clear(), b"clear".to_vec());
    assert_eq!(commands::slow(5), b"slow 5".to_vec());
    assert_eq!(commands::slowoff(), b"slowoff".to_vec());
    assert_eq!(commands::followers(0), b"followers".to_vec());
    assert_eq!(commands::followers(90), b"followers 90s".to_vec());
    assert_eq!(commands::followersoff(), b"followersoff".to_vec());
    assert_eq!(commands::host(&b"chan".to_vec()), b"host chan".to_vec());
    assert_eq!(commands::unhost(), b"unhost".to_vec());
    assert_eq!(commands::settitle(&b"My Title".to_vec()), b"settitle My Title".to_vec());
    assert_eq!(commands::setcategory(&b"Games".to_vec()), b"setcategory Games".to_vec());
    assert_eq!(
        commands::addrole(&b"vip".to_vec(), &b"user".to_vec()),
        b"addrole vip user".to_vec()
    );
    assert_eq!(
        commands::removerole(&b"vip".to_vec(), &b"user".to_vec()),
        b"removerole vip user".to_vec()
    );
    assert_eq!(commands::fastclip(), b"fastclip".to_vec());
}
