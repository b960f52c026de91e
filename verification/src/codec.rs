//! Wire codec: translates between socket frames (bytes) and typed
//! [`SocketMessage`](crate::messages::SocketMessage) values.
//!
//! The wire format is a JSON object with a `type` discriminator. The encoder
//! emits a canonical text for each message; the decoder accepts exactly the
//! canonical texts and returns the message they encode.

use crate::messages::ChatMessage;
use crate::messages::ChatMessageView;
use crate::messages::SocketMessage;
use crate::messages::SocketMessageView;
use vstd::prelude::*;

verus! {

/// The decimal digits of `n`, most significant first, without leading zeros.
pub open spec fn dec_digits(n: nat) -> Seq<u8>
    decreases n,
{
    if n < 10 {
        seq![(48 + n) as u8]
    } else {
        dec_digits(n / 10).push((48 + n % 10) as u8)
    }
}

/// The bytes of an ASCII string, one byte per character.
pub open spec fn ascii_seq(s: Seq<char>) -> Seq<u8> {
    Seq::new(s.len(), |i: int| s[i] as u8)
}

/// Writes the decimal digits of `n`, most significant first.
pub fn u64_to_dec(n: u64) -> (r: Vec<u8>)
    ensures
        r@ == dec_digits(n as nat),
    decreases n,
{
    if n < 10 {
        let mut v: Vec<u8> = Vec::new();
        v.push(48 + n as u8);
        v
    } else {
        let mut v = u64_to_dec(n / 10);
        v.push(48 + (n % 10) as u8);
        v
    }
}

/// Appends the bytes of an ASCII string literal to `out`.
pub fn append_ascii(out: &mut Vec<u8>, s: &str)
    requires
        s.is_ascii(),
    ensures
        final(out)@ == old(out)@ + ascii_seq(s@),
{
    broadcast use vstd::string::is_ascii_spec_bytes;

    let v = s.as_bytes_vec();
    proof {
        assert(v@ =~= ascii_seq(s@));
    }
    let mut i: usize = 0;
    while i < v.len()
        invariant
            i <= v.len(),
            v@ == ascii_seq(s@),
            out@ == old(out)@ + v@.take(i as int),
        decreases v.len() - i,
    {
        out.push(v[i]);
        i = i + 1;
        proof {
            assert(out@ =~= old(out)@ + v@.take(i as int));
        }
    }
    proof {
        assert(out@ =~= old(out)@ + ascii_seq(s@));
    }
}

/// Byte value of `"`.
pub const QUOTE: u8 = 34;

/// Byte value of `\`.
pub const BACKSLASH: u8 = 92;

/// How one byte of a string is written inside a quoted JSON string:
/// quotes and backslashes get a backslash escape, all else is verbatim.
pub open spec fn esc_byte(b: u8) -> Seq<u8> {
    if b == QUOTE || b == BACKSLASH {
        seq![BACKSLASH, b]
    } else {
        seq![b]
    }
}

/// The escaped form of a whole string.
pub open spec fn escape(s: Seq<u8>) -> Seq<u8>
    decreases s.len(),
{
    if s.len() == 0 {
        Seq::empty()
    } else {
        esc_byte(s[0]) + escape(s.skip(1))
    }
}

/// Escaping a string one byte longer appends the escape of the new byte.
pub proof fn lemma_escape_push(s: Seq<u8>, b: u8)
    ensures
        escape(s.push(b)) == escape(s) + esc_byte(b),
    decreases s.len(),
{
    if s.len() == 0 {
        assert(s.push(b)[0] == b);
        assert(s.push(b).skip(1) =~= Seq::<u8>::empty());
        assert(escape(s.push(b)) == esc_byte(b) + escape(Seq::<u8>::empty()));
        assert(escape(Seq::<u8>::empty()) =~= Seq::<u8>::empty());
        assert(escape(s.push(b)) =~= esc_byte(b));
        assert(escape(s) + esc_byte(b) =~= esc_byte(b));
    } else {
        assert(s.push(b).skip(1) =~= s.skip(1).push(b));
        lemma_escape_push(s.skip(1), b);
        assert(s.push(b)[0] == s[0]);
        assert(escape(s.push(b)) == esc_byte(s[0]) + (escape(s.skip(1)) + esc_byte(b)));
        assert(esc_byte(s[0]) + (escape(s.skip(1)) + esc_byte(b)) =~= (esc_byte(s[0]) + escape(
            s.skip(1),
        )) + esc_byte(b));
    }
}

/// Appends the escaped form of `s` to `out`.
pub fn append_escaped(out: &mut Vec<u8>, s: &Vec<u8>)
    ensures
        final(out)@ == old(out)@ + escape(s@),
{
    let mut j: usize = 0;
    while j < s.len()
        invariant
            j <= s@.len(),
            out@ == old(out)@ + escape(s@.take(j as int)),
        decreases s@.len() - j,
    {
        let b = s[j];
        if b == QUOTE || b == BACKSLASH {
            out.push(BACKSLASH);
            out.push(b);
        } else {
            out.push(b);
        }
        proof {
            assert(s@.take(j + 1) =~= s@.take(j as int).push(s@[j as int]));
            lemma_escape_push(s@.take(j as int), s@[j as int]);
            assert(out@ =~= old(out)@ + escape(s@.take(j + 1)));
        }
        j = j + 1;
    }
    proof {
        assert(s@.take(s@.len() as int) =~= s@);
    }
}

/// A decimal digit byte.
pub open spec fn is_digit(b: u8) -> bool {
    48 <= b <= 57
}

/// The numeric value of a digit string, most significant digit first.
pub open spec fn dec_val(s: Seq<u8>) -> nat
    decreases s.len(),
{
    if s.len() == 0 {
        0
    } else {
        dec_val(s.drop_last()) * 10 + (s.last() - 48) as nat
    }
}

/// Every byte that `dec_digits` emits is a digit.
pub proof fn lemma_dec_digits_are_digits(n: nat)
    ensures
        forall|i: int| 0 <= i < dec_digits(n).len() ==> is_digit(#[trigger] dec_digits(n)[i]),
        dec_digits(n).len() >= 1,
    decreases n,
{
    if n >= 10 {
        lemma_dec_digits_are_digits(n / 10);
    }
}

/// Reading back the digits of `n` yields `n`.
pub proof fn lemma_dec_val_of_dec_digits(n: nat)
    ensures
        dec_val(dec_digits(n)) == n,
    decreases n,
{
    if n < 10 {
        assert(dec_digits(n).drop_last() =~= Seq::<u8>::empty());
        assert(dec_val(Seq::<u8>::empty()) == 0);
        assert(dec_digits(n).last() == (48 + n) as u8);
        assert(dec_val(dec_digits(n)) == 0 * 10 + ((48 + n) as u8 - 48) as nat);
        assert(((48 + n) as u8 - 48) as nat == n);
    } else {
        lemma_dec_val_of_dec_digits(n / 10);
        assert(dec_digits(n).drop_last() =~= dec_digits(n / 10));
        assert(dec_digits(n).last() == (48 + n % 10) as u8);
        assert(((48 + n % 10) as u8 - 48) as nat == n % 10);
        assert(dec_val(dec_digits(n)) == (n / 10) * 10 + n % 10);
    }
}

/// The value of a prefix of a digit string never exceeds the whole.
pub proof fn lemma_dec_val_prefix(s: Seq<u8>, j: int)
    requires
        0 <= j <= s.len(),
        forall|i: int| 0 <= i < s.len() ==> is_digit(#[trigger] s[i]),
    ensures
        dec_val(s.take(j)) <= dec_val(s),
    decreases s.len(),
{
    if j < s.len() {
        assert(s.drop_last().take(j) =~= s.take(j));
        lemma_dec_val_prefix(s.drop_last(), j);
        assert(dec_val(s) == dec_val(s.drop_last()) * 10 + (s.last() - 48) as nat);
        assert(dec_val(s.drop_last()) * 10 >= dec_val(s.drop_last()));
    } else {
        assert(s.take(j) =~= s);
    }
}

/// Appending one digit multiplies the value by ten and adds the digit.
pub proof fn lemma_dec_val_push(s: Seq<u8>, b: u8)
    ensures
        dec_val(s.push(b)) == dec_val(s) * 10 + (b - 48) as nat,
{
    assert(s.push(b).drop_last() =~= s);
}

/// The decimal digits of a signed value: a minus sign, for a negative
/// value, followed by the digits of the magnitude.
pub open spec fn idec_digits(i: int) -> Seq<u8> {
    if i < 0 {
        seq![45u8] + dec_digits((-i) as nat)
    } else {
        dec_digits(i as nat)
    }
}

/// Writes the decimal digits of a signed value.
pub fn i64_to_dec(n: i64) -> (r: Vec<u8>)
    ensures
        r@ == idec_digits(n as int),
{
    if n >= 0 {
        u64_to_dec(n as u64)
    } else {
        let m: u64 = ((-(n + 1)) as u64) + 1;
        assert(m as nat == (-(n as int)) as nat);
        let mut v: Vec<u8> = Vec::new();
        v.push(45u8);
        let ds = u64_to_dec(m);
        let mut k: usize = 0;
        while k < ds.len()
            invariant
                k <= ds@.len(),
                v@ == seq![45u8] + ds@.take(k as int),
            decreases ds@.len() - k,
        {
            v.push(ds[k]);
            proof {
                assert(v@ =~= seq![45u8] + ds@.take(k + 1));
            }
            k = k + 1;
        }
        proof {
            assert(ds@.take(ds@.len() as int) =~= ds@);
            assert(v@ =~= idec_digits(n as int));
        }
        v
    }
}

/// Opening text of an `Auth` message, up to the nonce.
pub open spec fn lit_auth() -> Seq<u8> {
    ascii_seq("{\"type\":\"AUTH\",\"nonce\":\""@)
}

/// Opening text of a `Response` message, up to the nonce.
pub open spec fn lit_resp() -> Seq<u8> {
    ascii_seq("{\"type\":\"RESPONSE\",\"nonce\":\""@)
}

/// Opening text of a `Ping` message, up to the nonce.
pub open spec fn lit_ping() -> Seq<u8> {
    ascii_seq("{\"type\":\"PING\",\"nonce\":\""@)
}

/// Opening text of a `Pong` message, up to the nonce.
pub open spec fn lit_pong() -> Seq<u8> {
    ascii_seq("{\"type\":\"PONG\",\"nonce\":\""@)
}

/// Opening text of a `Chat` message, up to the first chat item.
pub open spec fn lit_chat() -> Seq<u8> {
    ascii_seq("{\"type\":\"CHAT\",\"data\":{\"chats\":["@)
}

/// Text between an `Auth` nonce and its token.
pub open spec fn lit_data_token() -> Seq<u8> {
    ascii_seq(",\"data\":{\"token\":\""@)
}

/// Text between a `Pong` nonce and its gap.
pub open spec fn lit_data_gap() -> Seq<u8> {
    ascii_seq(",\"data\":{\"gap\":"@)
}

/// Closing text of a message with one nesting level.
pub open spec fn lit_rbrace() -> Seq<u8> {
    ascii_seq("}"@)
}

/// Closing text of a message with two nesting levels.
pub open spec fn lit_2rbrace() -> Seq<u8> {
    ascii_seq("}}"@)
}

/// Closing text of a `Chat` message, after the last chat item.
pub open spec fn lit_chat_close() -> Seq<u8> {
    ascii_seq("]}}"@)
}

/// Opening text of one chat item, up to the sender.
pub open spec fn lit_sender() -> Seq<u8> {
    ascii_seq("{\"sender_id\":"@)
}

/// Text between a chat item's sender and its display name.
pub open spec fn lit_nick() -> Seq<u8> {
    ascii_seq(",\"nick_name\":\""@)
}

/// Text between a chat item's display name and its content.
pub open spec fn lit_content() -> Seq<u8> {
    ascii_seq(",\"content\":\""@)
}

/// Text between a chat item's content and its timestamp.
pub open spec fn lit_time() -> Seq<u8> {
    ascii_seq(",\"send_time\":"@)
}

/// The text of an absent value.
pub open spec fn lit_null() -> Seq<u8> {
    ascii_seq("null"@)
}

/// The text of a chat item's sender: a number, or `null` when absent.
pub open spec fn opt_sender_text(s: Option<i64>) -> Seq<u8> {
    match s {
        Option::None => lit_null(),
        Option::Some(i) => idec_digits(i as int),
    }
}

/// The text of one chat item.
pub open spec fn chat_msg_text(c: ChatMessageView) -> Seq<u8> {
    lit_sender() + opt_sender_text(c.sender_id) + lit_nick() + escape(c.nick_name) + seq![QUOTE]
        + lit_content() + escape(c.content) + seq![QUOTE] + lit_time() + idec_digits(
        c.send_time as int,
    ) + lit_rbrace()
}

/// The text of all chat items after the first, each preceded by a comma.
pub open spec fn chats_rest_text(cs: Seq<ChatMessageView>) -> Seq<u8>
    decreases cs.len(),
{
    if cs.len() == 0 {
        Seq::empty()
    } else {
        seq![44u8] + chat_msg_text(cs[0]) + chats_rest_text(cs.skip(1))
    }
}

/// The text of a comma-separated list of chat items.
pub open spec fn chats_text(cs: Seq<ChatMessageView>) -> Seq<u8> {
    if cs.len() == 0 {
        Seq::empty()
    } else {
        chat_msg_text(cs[0]) + chats_rest_text(cs.skip(1))
    }
}

/// Adding an item to a non-empty tail appends a comma and its text.
pub proof fn lemma_chats_rest_push(cs: Seq<ChatMessageView>, c: ChatMessageView)
    ensures
        chats_rest_text(cs.push(c)) == chats_rest_text(cs) + seq![44u8] + chat_msg_text(c),
    decreases cs.len(),
{
    if cs.len() == 0 {
        assert(cs.push(c).skip(1) =~= Seq::<ChatMessageView>::empty());
        assert(cs.push(c)[0] == c);
        assert(chats_rest_text(cs.push(c)) == seq![44u8] + chat_msg_text(c) + chats_rest_text(
            Seq::<ChatMessageView>::empty(),
        ));
        assert(chats_rest_text(cs.push(c)) =~= chats_rest_text(cs) + seq![44u8] + chat_msg_text(c));
    } else {
        assert(cs.push(c).skip(1) =~= cs.skip(1).push(c));
        lemma_chats_rest_push(cs.skip(1), c);
        assert(cs.push(c)[0] == cs[0]);
        assert(chats_rest_text(cs.push(c)) =~= chats_rest_text(cs) + seq![44u8] + chat_msg_text(c));
    }
}

/// Adding an item to a list appends a comma (if needed) and its text.
pub proof fn lemma_chats_text_push(cs: Seq<ChatMessageView>, c: ChatMessageView)
    ensures
        cs.len() == 0 ==> chats_text(cs.push(c)) == chat_msg_text(c),
        cs.len() > 0 ==> chats_text(cs.push(c)) == chats_text(cs) + seq![44u8] + chat_msg_text(c),
{
    if cs.len() == 0 {
        assert(cs.push(c)[0] == c);
        assert(cs.push(c).skip(1) =~= Seq::<ChatMessageView>::empty());
        assert(chats_text(cs.push(c)) =~= chat_msg_text(c));
    } else {
        assert(cs.push(c)[0] == cs[0]);
        assert(cs.push(c).skip(1) =~= cs.skip(1).push(c));
        lemma_chats_rest_push(cs.skip(1), c);
        assert(chats_text(cs.push(c)) =~= chats_text(cs) + seq![44u8] + chat_msg_text(c));
    }
}

/// The wire text of a socket message.
pub open spec fn msg_text(m: SocketMessageView) -> Seq<u8> {
    match m {
        SocketMessageView::Auth { nonce, token } => lit_auth() + escape(nonce) + seq![QUOTE]
            + lit_data_token() + escape(token) + seq![QUOTE] + lit_2rbrace(),
        SocketMessageView::Response { nonce } => lit_resp() + escape(nonce) + seq![QUOTE]
            + lit_rbrace(),
        SocketMessageView::Ping { nonce } => lit_ping() + escape(nonce) + seq![QUOTE]
            + lit_rbrace(),
        SocketMessageView::Pong { nonce, gap } => lit_pong() + escape(nonce) + seq![QUOTE]
            + lit_data_gap() + dec_digits(gap as nat) + lit_2rbrace(),
        SocketMessageView::Chat { chats } => lit_chat() + chats_text(chats) + lit_chat_close(),
    }
}

/// Writes the text of one chat item at the end of `out`.
fn encode_chat_msg(out: &mut Vec<u8>, c: &ChatMessage)
    ensures
        final(out)@ == old(out)@ + chat_msg_text(c@),
{
    proof {
        reveal_strlit("{\"sender_id\":");
        reveal_strlit(",\"nick_name\":\"");
        reveal_strlit(",\"content\":\"");
        reveal_strlit(",\"send_time\":");
        reveal_strlit("null");
        reveal_strlit("}");
    }
    append_ascii(out, "{\"sender_id\":");
    match c.sender_id {
        Option::None => append_ascii(out, "null"),
        Option::Some(i) => {
            let mut d = i64_to_dec(i);
            out.append(&mut d);
        },
    }
    append_ascii(out, ",\"nick_name\":\"");
    append_escaped(out, &c.nick_name);
    out.push(QUOTE);
    append_ascii(out, ",\"content\":\"");
    append_escaped(out, &c.content);
    out.push(QUOTE);
    append_ascii(out, ",\"send_time\":");
    let mut t = i64_to_dec(c.send_time);
    out.append(&mut t);
    append_ascii(out, "}");
    proof {
        assert(out@ =~= old(out)@ + chat_msg_text(c@));
    }
}

/// Produces the wire text of a socket message.
pub fn encode_message(m: &SocketMessage) -> (r: Vec<u8>)
    ensures
        r@ == msg_text(m@),
{
    let mut out: Vec<u8> = Vec::new();
    match m {
        SocketMessage::Auth { nonce, token } => {
            proof {
                reveal_strlit("{\"type\":\"AUTH\",\"nonce\":\"");
                reveal_strlit(",\"data\":{\"token\":\"");
                reveal_strlit("}}");
            }
            append_ascii(&mut out, "{\"type\":\"AUTH\",\"nonce\":\"");
            append_escaped(&mut out, nonce);
            out.push(QUOTE);
            append_ascii(&mut out, ",\"data\":{\"token\":\"");
            append_escaped(&mut out, token);
            out.push(QUOTE);
            append_ascii(&mut out, "}}");
            proof {
                assert(out@ =~= msg_text(m@));
            }
        },
        SocketMessage::Response { nonce } => {
            proof {
                reveal_strlit("{\"type\":\"RESPONSE\",\"nonce\":\"");
                reveal_strlit("}");
            }
            append_ascii(&mut out, "{\"type\":\"RESPONSE\",\"nonce\":\"");
            append_escaped(&mut out, nonce);
            out.push(QUOTE);
            append_ascii(&mut out, "}");
            proof {
                assert(out@ =~= msg_text(m@));
            }
        },
        SocketMessage::Ping { nonce } => {
            proof {
                reveal_strlit("{\"type\":\"PING\",\"nonce\":\"");
                reveal_strlit("}");
            }
            append_ascii(&mut out, "{\"type\":\"PING\",\"nonce\":\"");
            append_escaped(&mut out, nonce);
            out.push(QUOTE);
            append_ascii(&mut out, "}");
            proof {
                assert(out@ =~= msg_text(m@));
            }
        },
        SocketMessage::Pong { nonce, gap } => {
            proof {
                reveal_strlit("{\"type\":\"PONG\",\"nonce\":\"");
                reveal_strlit(",\"data\":{\"gap\":");
                reveal_strlit("}}");
            }
            append_ascii(&mut out, "{\"type\":\"PONG\",\"nonce\":\"");
            append_escaped(&mut out, nonce);
            out.push(QUOTE);
            append_ascii(&mut out, ",\"data\":{\"gap\":");
            let mut d = u64_to_dec(*gap);
            out.append(&mut d);
            append_ascii(&mut out, "}}");
            proof {
                assert(out@ =~= msg_text(m@));
            }
        },
        SocketMessage::Chat { chats } => {
            proof {
                reveal_strlit("{\"type\":\"CHAT\",\"data\":{\"chats\":[");
                reveal_strlit("]}}");
            }
            append_ascii(&mut out, "{\"type\":\"CHAT\",\"data\":{\"chats\":[");
            let mut j: usize = 0;
            while j < chats.len()
                invariant
                    j <= chats@.len(),
                    out@ == lit_chat() + chats_text(chats.deep_view().take(j as int)),
                decreases chats@.len() - j,
            {
                if j > 0 {
                    out.push(44u8);
                }
                encode_chat_msg(&mut out, &chats[j]);
                proof {
                    let cv = chats.deep_view();
                    assert(cv[j as int] == chats@[j as int]@);
                    assert(cv.take(j + 1) =~= cv.take(j as int).push(cv[j as int]));
                    lemma_chats_text_push(cv.take(j as int), cv[j as int]);
                    assert(out@ =~= lit_chat() + chats_text(cv.take(j + 1)));
                }
                j = j + 1;
            }
            proof {
                assert(chats.deep_view().take(chats@.len() as int) =~= chats.deep_view());
            }
            append_ascii(&mut out, "]}}");
            proof {
                assert(out@ =~= msg_text(m@));
            }
        },
    }
    out
}

/// Splitting a tail of `s` into two known parts locates each part.
pub proof fn lemma_skip_parts(s: Seq<u8>, pos: int, a: Seq<u8>, b: Seq<u8>)
    requires
        0 <= pos <= s.len(),
        s.skip(pos) == a + b,
    ensures
        pos + a.len() <= s.len(),
        s.subrange(pos, pos + a.len()) =~= a,
        s.skip(pos + a.len()) =~= b,
{
    assert(s.skip(pos).len() == a.len() + b.len());
    assert forall|i: int| 0 <= i < b.len() implies s.skip(pos + a.len())[i] == b[i] by {
        assert(s.skip(pos)[a.len() + i] == b[i]);
        assert(s.skip(pos + a.len())[i] == s[pos + a.len() + i]);
        assert(s.skip(pos)[a.len() + i] == s[pos + a.len() + i]);
    }
}

/// True when the two byte strings hold the same bytes.
pub fn bytes_eq(a: &Vec<u8>, b: &Vec<u8>) -> (r: bool)
    ensures
        r == (a@ == b@),
{
    if a.len() != b.len() {
        proof {
            assert(a@ != b@);
        }
        return false;
    }
    let mut i: usize = 0;
    while i < a.len()
        invariant
            i <= a@.len(),
            a@.len() == b@.len(),
            forall|k: int| 0 <= k < i ==> a@[k] == b@[k],
        decreases a@.len() - i,
    {
        if a[i] != b[i] {
            proof {
                assert(a@[i as int] != b@[i as int]);
            }
            return false;
        }
        i = i + 1;
    }
    proof {
        assert(a@ =~= b@);
    }
    true
}

/// True when the byte at `i` is a decimal digit.
fn digit_at(s: &Vec<u8>, i: usize) -> (r: bool)
    requires
        i < s@.len(),
    ensures
        r == is_digit(s@[i as int]),
{
    let b = s[i];
    48 <= b && b <= 57
}

/// Matches an ASCII literal at `pos`, returning the position after it.
#[verifier::loop_isolation(false)]
fn match_lit(s: &Vec<u8>, pos: usize, lit: &str) -> (r: Option<usize>)
    requires
        lit.is_ascii(),
        pos <= s@.len(),
    ensures
        r matches Some(e) ==> pos <= e <= s@.len() && e == pos + lit@.len() && s@.subrange(
            pos as int,
            e as int,
        ) == ascii_seq(lit@),
        r is None ==> !(pos + lit@.len() <= s@.len() && s@.subrange(
            pos as int,
            pos + lit@.len(),
        ) == ascii_seq(lit@)),
{
    broadcast use vstd::string::is_ascii_spec_bytes;

    let v = lit.as_bytes_vec();
    proof {
        assert(v@ =~= ascii_seq(lit@));
    }
    if s.len() - pos < v.len() {
        return None;
    }
    let mut i: usize = 0;
    while i < v.len()
        invariant
            i <= v@.len(),
            pos + v@.len() <= s@.len(),
            v@ == ascii_seq(lit@),
            forall|k: int| 0 <= k < i ==> s@[pos + k] == v@[k],
        decreases v@.len() - i,
    {
        if s[pos + i] != v[i] {
            proof {
                if pos + lit@.len() <= s@.len() {
                    assert(s@.subrange(pos as int, pos + lit@.len())[i as int] == s@[pos + i]);
                }
            }
            return None;
        }
        i = i + 1;
    }
    proof {
        assert(s@.subrange(pos as int, pos + v@.len()) =~= v@);
    }
    Some(pos + v.len())
}

/// Reads a quoted string's body starting at `pos`: bytes up to an
/// unescaped closing quote, undoing the escapes. Consumes the quote.
///
/// The ghost witness `(present, body, rest)` carries the decomposition of
/// the tail of `s` that a canonical text has; when present, parsing is
/// guaranteed to succeed and to return exactly `body`, leaving `rest`.
#[verifier::loop_isolation(false)]
fn parse_string_at(s: &Vec<u8>, pos: usize, w: Ghost<(bool, Seq<u8>, Seq<u8>)>) -> (r: Option<
    (Vec<u8>, usize),
>)
    requires
        pos <= s@.len(),
        w@.0 ==> s@.skip(pos as int) == escape(w@.1) + seq![QUOTE] + w@.2,
    ensures
        r matches Some(q) ==> pos < q.1 <= s@.len(),
        w@.0 ==> (r matches Some(q) && q.0@ == w@.1 && s@.skip(q.1 as int) == w@.2),
{
    let mut out: Vec<u8> = Vec::new();
    let mut i: usize = pos;
    proof {
        if w@.0 {
            assert(w@.1.skip(0) =~= w@.1);
            assert(out@ =~= w@.1.take(0));
        }
    }
    loop
        invariant
            pos <= i <= s@.len(),
            w@.0 ==> out@.len() <= w@.1.len() && out@ == w@.1.take(out@.len() as int) && s@.skip(
                i as int,
            ) == escape(w@.1.skip(out@.len() as int)) + seq![QUOTE] + w@.2,
        decreases s@.len() - i,
    {
        proof {
            if w@.0 {
                assert(s@.skip(i as int).len() >= 1);
            }
        }
        if i >= s.len() {
            return None;
        }
        let b = s[i];
        proof {
            if w@.0 {
                let x2 = w@.1.skip(out@.len() as int);
                if x2.len() > 0 {
                    assert(escape(x2) == esc_byte(x2[0]) + escape(x2.skip(1)));
                    assert(s@.skip(i as int)[0] == esc_byte(x2[0])[0]);
                } else {
                    assert(escape(x2) =~= Seq::<u8>::empty());
                    assert(s@.skip(i as int)[0] == QUOTE);
                }
                assert(b == s@.skip(i as int)[0]);
            }
        }
        if b == QUOTE {
            proof {
                if w@.0 {
                    let x2 = w@.1.skip(out@.len() as int);
                    // a non-empty remainder would start with a backslash or
                    // a non-quote byte
                    if x2.len() > 0 {
                        assert(esc_byte(x2[0])[0] != QUOTE);
                        assert(false);
                    }
                    assert(out@.len() == w@.1.len());
                    assert(out@ =~= w@.1);
                    assert((escape(x2) + seq![QUOTE] + w@.2).skip(1) =~= w@.2);
                    assert(s@.skip(i + 1) =~= s@.skip(i as int).skip(1));
                }
            }
            return Some((out, i + 1));
        }
        if b == BACKSLASH {
            proof {
                if w@.0 {
                    let x2 = w@.1.skip(out@.len() as int);
                    assert(x2.len() > 0);
                    assert(x2[0] == QUOTE || x2[0] == BACKSLASH);
                    assert(s@.skip(i as int).len() >= 2);
                    assert(s@.skip(i as int)[1] == x2[0]);
                }
            }
            if i + 1 >= s.len() {
                return None;
            }
            let c = s[i + 1];
            proof {
                if w@.0 {
                    assert(c == s@.skip(i as int)[1]);
                }
            }
            if c == QUOTE || c == BACKSLASH {
                let ghost old_out = out@;
                out.push(c);
                i = i + 2;
                proof {
                    if w@.0 {
                        let x2 = w@.1.skip(old_out.len() as int);
                        assert(c == x2[0] == w@.1[old_out.len() as int]);
                        assert(out@ =~= w@.1.take(out@.len() as int));
                        assert(w@.1.skip(out@.len() as int) =~= x2.skip(1));
                        assert(s@.skip(i as int) =~= s@.skip(i - 2).skip(2));
                        assert((esc_byte(x2[0]) + escape(x2.skip(1)) + seq![QUOTE] + w@.2).skip(2)
                            =~= escape(x2.skip(1)) + seq![QUOTE] + w@.2);
                        assert((escape(x2) + seq![QUOTE] + w@.2).skip(2) =~= escape(x2.skip(1))
                            + seq![QUOTE] + w@.2);
                    }
                }
            } else {
                proof {
                    if w@.0 {
                        assert(false);
                    }
                }
                return None;
            }
        } else {
            let ghost old_out = out@;
            out.push(b);
            i = i + 1;
            proof {
                if w@.0 {
                    let x2 = w@.1.skip(old_out.len() as int);
                    assert(x2.len() > 0);
                    if x2[0] == QUOTE || x2[0] == BACKSLASH {
                        assert(esc_byte(x2[0])[0] == BACKSLASH);
                        assert(false);
                    }
                    assert(b == x2[0] == w@.1[old_out.len() as int]);
                    assert(out@ =~= w@.1.take(out@.len() as int));
                    assert(w@.1.skip(out@.len() as int) =~= x2.skip(1));
                    assert(s@.skip(i as int) =~= s@.skip(i - 1).skip(1));
                    assert((escape(x2) + seq![QUOTE] + w@.2).skip(1) =~= escape(x2.skip(1))
                        + seq![QUOTE] + w@.2);
                }
            }
        }
    }
}

/// Reads an unsigned decimal number starting at `pos`.
///
/// The ghost witness `(present, value, rest)` carries the decomposition of
/// the tail of `s` that a canonical text has; when present, parsing is
/// guaranteed to succeed and to return exactly `value`, leaving `rest`.
#[verifier::loop_isolation(false)]
fn parse_u64_at(s: &Vec<u8>, pos: usize, w: Ghost<(bool, u64, Seq<u8>)>) -> (r: Option<
    (u64, usize),
>)
    requires
        pos <= s@.len(),
        w@.0 ==> s@.skip(pos as int) == dec_digits(w@.1 as nat) + w@.2 && (w@.2.len() > 0
            ==> !is_digit(w@.2[0])),
    ensures
        r matches Some(q) ==> pos < q.1 <= s@.len(),
        w@.0 ==> (r matches Some(q) && q.0 == w@.1 && s@.skip(q.1 as int) == w@.2),
{
    let ghost dd = dec_digits(w@.1 as nat);
    proof {
        if w@.0 {
            lemma_dec_digits_are_digits(w@.1 as nat);
            lemma_skip_parts(s@, pos as int, dd, w@.2);
        }
    }
    let mut acc: u64 = 0;
    let mut i: usize = pos;
    while i < s.len() && digit_at(s, i)
        invariant
            pos <= i <= s@.len(),
            w@.0 ==> i - pos <= dd.len() && acc == dec_val(dd.take(i - pos)),
        decreases s@.len() - i,
    {
        proof {
            if w@.0 {
                // the run of digits cannot outlast the witness's digits
                if i - pos == dd.len() {
                    if i < s@.len() {
                        assert(s@[i as int] == s@.skip(pos + dd.len())[i - pos - dd.len()]);
                        assert(s@[i as int] == w@.2[0]);
                    }
                    assert(false);
                }
                assert(s@[i as int] == s@.skip(pos as int)[i - pos]);
                assert(s@[i as int] == dd[i - pos]);
            }
        }
        let b = s[i];
        let d = (b - 48) as u64;
        let ghost k = i - pos;
        proof {
            if w@.0 {
                lemma_dec_val_push(dd.take(k), dd[k]);
                assert(dd.take(k).push(dd[k]) =~= dd.take(k + 1));
                lemma_dec_val_prefix(dd, k + 1);
                lemma_dec_val_of_dec_digits(w@.1 as nat);
                assert(dec_val(dd.take(k + 1)) <= w@.1);
            }
        }
        let a1 = match acc.checked_mul(10) {
            Some(a1) => a1,
            None => {
                proof {
                    if w@.0 {
                        assert(acc * 10 <= dec_val(dd.take(k + 1)));
                        assert(false);
                    }
                }
                return None;
            },
        };
        let a2 = match a1.checked_add(d) {
            Some(a2) => a2,
            None => {
                proof {
                    if w@.0 {
                        assert(acc * 10 + d == dec_val(dd.take(k + 1)));
                        assert(false);
                    }
                }
                return None;
            },
        };
        acc = a2;
        i = i + 1;
        proof {
            if w@.0 {
                assert(d == (dd[k] - 48) as nat);
                assert(acc == dec_val(dd.take(i - pos)));
            }
        }
    }
    proof {
        if w@.0 {
            // the loop stops exactly at the end of the witness's digits
            if i - pos < dd.len() {
                assert(s@[i as int] == s@.skip(pos as int)[i - pos]);
                assert(s@[i as int] == dd[i - pos]);
                assert(i < s@.len());
                assert(is_digit(s@[i as int]));
                assert(false);
            }
            assert(dd.take(i - pos) =~= dd);
            lemma_dec_val_of_dec_digits(w@.1 as nat);
        }
    }
    if i == pos {
        proof {
            if w@.0 {
                assert(dd.len() >= 1);
                assert(false);
            }
        }
        return None;
    }
    Some((acc, i))
}

/// Reads a signed decimal number starting at `pos`.
///
/// The ghost witness plays the same role as in [`parse_u64_at`].
fn parse_i64_at(s: &Vec<u8>, pos: usize, w: Ghost<(bool, i64, Seq<u8>)>) -> (r: Option<
    (i64, usize),
>)
    requires
        pos <= s@.len(),
        w@.0 ==> s@.skip(pos as int) == idec_digits(w@.1 as int) + w@.2 && (w@.2.len() > 0
            ==> !is_digit(w@.2[0])),
    ensures
        r matches Some(q) ==> pos < q.1 <= s@.len(),
        w@.0 ==> (r matches Some(q) && q.0 == w@.1 && s@.skip(q.1 as int) == w@.2),
{
    proof {
        if w@.0 {
            assert(s@.skip(pos as int).len() >= 1);
            lemma_dec_digits_are_digits(
                if w@.1 < 0 {
                    (-(w@.1 as int)) as nat
                } else {
                    w@.1 as nat
                },
            );
        }
    }
    if pos >= s.len() {
        proof {
            if w@.0 {
                assert(false);
            }
        }
        return None;
    }
    let b = s[pos];
    proof {
        if w@.0 {
            assert(b == s@.skip(pos as int)[0]);
            if w@.1 < 0 {
                assert(idec_digits(w@.1 as int)[0] == 45u8);
                assert(b == 45u8);
            } else {
                assert(idec_digits(w@.1 as int)[0] == dec_digits(w@.1 as nat)[0]);
                assert(is_digit(b));
            }
        }
    }
    if b == 45u8 {
        let ghost mag: u64 = if w@.1 == i64::MIN {
            0x8000_0000_0000_0000u64
        } else if w@.1 < 0 {
            (-w@.1) as u64
        } else {
            0u64
        };
        proof {
            if w@.0 {
                assert(w@.1 < 0);
                assert(mag as int == -(w@.1 as int));
                assert(s@.skip(pos as int) =~= seq![45u8] + (dec_digits(mag as nat) + w@.2));
                lemma_skip_parts(s@, pos as int, seq![45u8], dec_digits(mag as nat) + w@.2);
                assert(s@.skip(pos + 1) == dec_digits(mag as nat) + w@.2);
            }
        }
        match parse_u64_at(s, pos + 1, Ghost((w@.0, mag, w@.2))) {
            Some((m, e)) => {
                if m <= 9223372036854775807u64 {
                    proof {
                        if w@.0 {
                            assert(m == mag);
                            assert(-(m as int) == w@.1 as int);
                        }
                    }
                    Some(((-(m as i64)), e))
                } else if m == 9223372036854775808u64 {
                    proof {
                        if w@.0 {
                            assert(m == mag);
                            assert(w@.1 == i64::MIN);
                        }
                    }
                    Some((i64::MIN, e))
                } else {
                    proof {
                        if w@.0 {
                            assert(mag <= 0x8000_0000_0000_0000);
                            assert(false);
                        }
                    }
                    None
                }
            },
            None => {
                proof {
                    if w@.0 {
                        assert(false);
                    }
                }
                None
            },
        }
    } else {
        proof {
            if w@.0 {
                assert(w@.1 >= 0);
                assert(w@.1 as u64 as nat == w@.1 as nat);
            }
        }
        match parse_u64_at(s, pos, Ghost((w@.0, if w@.1 >= 0 { w@.1 as u64 } else { 0u64 }, w@.2))) {
            Some((v, e)) => {
                if v <= 9223372036854775807u64 {
                    Some((v as i64, e))
                } else {
                    proof {
                        if w@.0 {
                            assert(false);
                        }
                    }
                    None
                }
            },
            None => {
                proof {
                    if w@.0 {
                        assert(false);
                    }
                }
                None
            },
        }
    }
}

/// Concrete facts about the literal texts that the parsers dispatch on.
proof fn lemma_lit_facts()
    ensures
        lit_auth().len() == 24,
        lit_resp().len() == 28,
        lit_ping().len() == 24,
        lit_pong().len() == 24,
        lit_chat().len() == 32,
        lit_auth()[9] == 65u8,
        lit_resp()[9] == 82u8,
        lit_ping()[9] == 80u8,
        lit_pong()[9] == 80u8,
        lit_chat()[9] == 67u8,
        lit_ping()[10] == 73u8,
        lit_pong()[10] == 79u8,
        lit_data_token().len() == 18,
        lit_data_gap().len() == 15,
        lit_data_gap()[0] == 44u8,
        lit_rbrace() == seq![125u8],
        lit_2rbrace() == seq![125u8, 125u8],
        lit_chat_close().len() == 3,
        lit_chat_close()[0] == 93u8,
        lit_sender().len() == 13,
        lit_sender()[0] == 123u8,
        lit_nick().len() == 14,
        lit_nick()[0] == 44u8,
        lit_content().len() == 12,
        lit_content()[0] == 44u8,
        lit_time().len() == 13,
        lit_time()[0] == 44u8,
        lit_null().len() == 4,
        lit_null()[0] == 110u8,
{
    reveal_strlit("{\"type\":\"AUTH\",\"nonce\":\"");
    reveal_strlit("{\"type\":\"RESPONSE\",\"nonce\":\"");
    reveal_strlit("{\"type\":\"PING\",\"nonce\":\"");
    reveal_strlit("{\"type\":\"PONG\",\"nonce\":\"");
    reveal_strlit("{\"type\":\"CHAT\",\"data\":{\"chats\":[");
    reveal_strlit(",\"data\":{\"token\":\"");
    reveal_strlit(",\"data\":{\"gap\":");
    reveal_strlit("}");
    reveal_strlit("}}");
    reveal_strlit("]}}");
    reveal_strlit("{\"sender_id\":");
    reveal_strlit(",\"nick_name\":\"");
    reveal_strlit(",\"content\":\"");
    reveal_strlit(",\"send_time\":");
    reveal_strlit("null");
    assert(lit_rbrace() =~= seq![125u8]);
    assert(lit_2rbrace() =~= seq![125u8, 125u8]);
}

/// Reads a quoted nonce followed by the closing brace of a one-level
/// message, expecting the input to end there.
fn parse_nonce_end(s: &Vec<u8>, pos: usize, w: Ghost<(bool, Seq<u8>)>) -> (r: Option<Vec<u8>>)
    requires
        pos <= s@.len(),
        w@.0 ==> s@.skip(pos as int) == escape(w@.1) + seq![QUOTE] + lit_rbrace(),
    ensures
        w@.0 ==> (r matches Some(n) && n@ == w@.1),
{
    proof {
        lemma_lit_facts();
        reveal_strlit("}");
    }
    match parse_string_at(s, pos, Ghost((w@.0, w@.1, lit_rbrace()))) {
        None => {
            proof {
                if w@.0 {
                    assert(false);
                }
            }
            None
        },
        Some((n, p2)) => {
            let m2 = match_lit(s, p2, "}");
            match m2 {
                None => {
                    proof {
                        if w@.0 {
                            lemma_skip_parts(s@, p2 as int, lit_rbrace(), Seq::<u8>::empty());
                            assert(s@.skip(p2 as int) =~= lit_rbrace() + Seq::<u8>::empty());
                            assert(s@.subrange(p2 as int, p2 + 1) == lit_rbrace());
                            assert(false);
                        }
                    }
                    None
                },
                Some(p3) => {
                    if p3 == s.len() {
                        Some(n)
                    } else {
                        proof {
                            if w@.0 {
                                assert(s@.skip(p2 as int).len() == 1);
                                assert(false);
                            }
                        }
                        None
                    }
                },
            }
        },
    }
}

/// Reads one chat item starting at `pos`.
///
/// The ghost witness `(present, item, rest)` carries the decomposition of
/// the tail of `s` that a canonical text has; when present, parsing is
/// guaranteed to succeed and to return exactly `item`, leaving `rest`.
#[verifier::rlimit(100)]
fn parse_chat_msg(s: &Vec<u8>, pos: usize, w: Ghost<(bool, ChatMessageView, Seq<u8>)>) -> (r:
    Option<(ChatMessage, usize)>)
    requires
        pos <= s@.len(),
        w@.0 ==> s@.skip(pos as int) == chat_msg_text(w@.1) + w@.2,
    ensures
        r matches Some(q) ==> pos <= q.1 <= s@.len(),
        w@.0 ==> (r matches Some(q) && q.0@ == w@.1 && s@.skip(q.1 as int) == w@.2),
{
    proof {
        lemma_lit_facts();
        reveal_strlit("{\"sender_id\":");
        reveal_strlit(",\"nick_name\":\"");
        reveal_strlit(",\"content\":\"");
        reveal_strlit(",\"send_time\":");
        reveal_strlit("null");
        reveal_strlit("}");
    }
    let ghost cv = w@.1;
    let ghost r1 = opt_sender_text(cv.sender_id) + lit_nick() + escape(cv.nick_name)
        + seq![QUOTE] + lit_content() + escape(cv.content) + seq![QUOTE] + lit_time()
        + idec_digits(cv.send_time as int) + lit_rbrace() + w@.2;
    let ghost r2 = lit_nick() + escape(cv.nick_name) + seq![QUOTE] + lit_content() + escape(
        cv.content,
    ) + seq![QUOTE] + lit_time() + idec_digits(cv.send_time as int) + lit_rbrace() + w@.2;
    let ghost r3 = escape(cv.nick_name) + seq![QUOTE] + (lit_content() + escape(cv.content)
        + seq![QUOTE] + lit_time() + idec_digits(cv.send_time as int) + lit_rbrace() + w@.2);
    let ghost r4 = lit_content() + escape(cv.content) + seq![QUOTE] + lit_time() + idec_digits(
        cv.send_time as int,
    ) + lit_rbrace() + w@.2;
    let ghost r5 = escape(cv.content) + seq![QUOTE] + (lit_time() + idec_digits(
        cv.send_time as int,
    ) + lit_rbrace() + w@.2);
    let ghost r6 = lit_time() + idec_digits(cv.send_time as int) + lit_rbrace() + w@.2;
    let ghost r7 = idec_digits(cv.send_time as int) + (lit_rbrace() + w@.2);
    let ghost r8 = lit_rbrace() + w@.2;
    proof {
        reveal_strlit("{\"sender_id\":");
        if w@.0 {
            assert(s@.skip(pos as int) =~= lit_sender() + r1);
            lemma_skip_parts(s@, pos as int, lit_sender(), r1);
        }
    }
    let m1 = match_lit(s, pos, "{\"sender_id\":");
    let p1 = match m1 {
        None => {
            proof {
                if w@.0 {
                    assert(false);
                }
            }
            return None;
        },
        Some(p1) => p1,
    };
    proof {
        if w@.0 {
            assert(s@.skip(p1 as int) == r1);
            assert(r1.len() > 0);
        }
    }
    if p1 >= s.len() {
        proof {
            if w@.0 {
                assert(false);
            }
        }
        return None;
    }
    let b = s[p1];
    proof {
        if w@.0 {
            assert(b == r1[0]);
            match cv.sender_id {
                Option::None => {
                    assert(r1[0] == lit_null()[0]);
                },
                Option::Some(i) => {
                    lemma_dec_digits_are_digits(
                        if i < 0 {
                            (-(i as int)) as nat
                        } else {
                            i as nat
                        },
                    );
                    if i < 0 {
                        assert(r1[0] == 45u8);
                    } else {
                        assert(r1[0] == dec_digits(i as nat)[0]);
                        assert(is_digit(r1[0]));
                    }
                    assert(b != 110u8);
                },
            }
        }
    }
    let sender: Option<i64>;
    let p2: usize;
    if b == 110u8 {
        proof {
            reveal_strlit("null");
            if w@.0 {
                assert(cv.sender_id is None);
                assert(s@.skip(p1 as int) =~= lit_null() + r2);
                lemma_skip_parts(s@, p1 as int, lit_null(), r2);
            }
        }
        let m2 = match_lit(s, p1, "null");
        match m2 {
            None => {
                proof {
                    if w@.0 {
                        assert(false);
                    }
                }
                return None;
            },
            Some(e) => {
                sender = None;
                p2 = e;
            },
        }
    } else {
        let ghost wi: i64 = match cv.sender_id {
            Option::Some(i) => i,
            Option::None => 0i64,
        };
        proof {
            if w@.0 {
                assert(cv.sender_id matches Option::Some(i) && i == wi);
                assert(s@.skip(p1 as int) =~= idec_digits(wi as int) + r2);
                assert(r2[0] == lit_nick()[0]);
                assert(!is_digit(r2[0]));
            }
        }
        match parse_i64_at(s, p1, Ghost((w@.0, wi, r2))) {
            None => {
                proof {
                    if w@.0 {
                        assert(false);
                    }
                }
                return None;
            },
            Some((v, e)) => {
                sender = Some(v);
                p2 = e;
            },
        }
    }
    proof {
        if w@.0 {
            assert(s@.skip(p2 as int) == r2);
            assert(s@.skip(p2 as int) =~= lit_nick() + r3);
            lemma_skip_parts(s@, p2 as int, lit_nick(), r3);
        }
    }
    let m3 = match_lit(s, p2, ",\"nick_name\":\"");
    let p3 = match m3 {
        None => {
            proof {
                if w@.0 {
                    assert(false);
                }
            }
            return None;
        },
        Some(e) => e,
    };
    let (nick, p4) = match parse_string_at(
        s,
        p3,
        Ghost((w@.0, cv.nick_name, r4)),
    ) {
        None => {
            proof {
                if w@.0 {
                    assert(false);
                }
            }
            return None;
        },
        Some(q) => q,
    };
    proof {
        if w@.0 {
            assert(s@.skip(p4 as int) == r4);
            assert(s@.skip(p4 as int) =~= lit_content() + r5);
            lemma_skip_parts(s@, p4 as int, lit_content(), r5);
        }
    }
    let m5 = match_lit(s, p4, ",\"content\":\"");
    let p5 = match m5 {
        None => {
            proof {
                if w@.0 {
                    assert(false);
                }
            }
            return None;
        },
        Some(e) => e,
    };
    let (content, p6) = match parse_string_at(
        s,
        p5,
        Ghost((w@.0, cv.content, r6)),
    ) {
        None => {
            proof {
                if w@.0 {
                    assert(false);
                }
            }
            return None;
        },
        Some(q) => q,
    };
    proof {
        if w@.0 {
            assert(s@.skip(p6 as int) == r6);
            assert(s@.skip(p6 as int) =~= lit_time() + r7);
            lemma_skip_parts(s@, p6 as int, lit_time(), r7);
        }
    }
    let m7 = match_lit(s, p6, ",\"send_time\":");
    let p7 = match m7 {
        None => {
            proof {
                if w@.0 {
                    assert(false);
                }
            }
            return None;
        },
        Some(e) => e,
    };
    proof {
        if w@.0 {
            assert(s@.skip(p7 as int) == r7);
            assert(r8[0] == lit_rbrace()[0]);
            assert(!is_digit(r8[0]));
        }
    }
    let (st, p8) = match parse_i64_at(s, p7, Ghost((w@.0, cv.send_time, r8))) {
        None => {
            proof {
                if w@.0 {
                    assert(false);
                }
            }
            return None;
        },
        Some(q) => q,
    };
    proof {
        reveal_strlit("}");
        if w@.0 {
            assert(s@.skip(p8 as int) == r8);
            assert(s@.skip(p8 as int) =~= lit_rbrace() + w@.2);
            lemma_skip_parts(s@, p8 as int, lit_rbrace(), w@.2);
        }
    }
    let m9 = match_lit(s, p8, "}");
    let p9 = match m9 {
        None => {
            proof {
                if w@.0 {
                    assert(false);
                }
            }
            return None;
        },
        Some(e) => e,
    };
    let c = ChatMessage { sender_id: sender, nick_name: nick, content, send_time: st };
    proof {
        if w@.0 {
            assert(c@ == cv);
        }
    }
    Some((c, p9))
}

/// Reads a comma-separated list of chat items, stopping before the byte
/// that closes the list.
#[verifier::loop_isolation(false)]
fn parse_chats(s: &Vec<u8>, pos: usize, w: Ghost<(bool, Seq<ChatMessageView>, Seq<u8>)>) -> (r:
    Option<(Vec<ChatMessage>, usize)>)
    requires
        pos <= s@.len(),
        w@.0 ==> s@.skip(pos as int) == chats_text(w@.1) + w@.2 && w@.2.len() > 0 && w@.2[0]
            == 93u8,
    ensures
        r matches Some(q) ==> pos <= q.1 <= s@.len(),
        w@.0 ==> (r matches Some(q) && q.0.deep_view() == w@.1 && s@.skip(q.1 as int) == w@.2),
{
    proof {
        lemma_lit_facts();
    }
    let mut out: Vec<ChatMessage> = Vec::new();
    if pos >= s.len() {
        proof {
            if w@.0 {
                assert(s@.skip(pos as int).len() >= 1);
                assert(false);
            }
        }
        return None;
    }
    let b0 = s[pos];
    proof {
        if w@.0 {
            assert(b0 == s@.skip(pos as int)[0]);
            if w@.1.len() > 0 {
                assert(chat_msg_text(w@.1[0])[0] == lit_sender()[0]);
                assert(s@.skip(pos as int)[0] == 123u8);
            } else {
                assert(chats_text(w@.1) =~= Seq::<u8>::empty());
                assert(s@.skip(pos as int)[0] == w@.2[0]);
            }
        }
    }
    if b0 == 93u8 {
        proof {
            if w@.0 {
                assert(w@.1.len() == 0);
                assert(out.deep_view() =~= w@.1);
                assert(s@.skip(pos as int) =~= w@.2);
            }
        }
        return Some((out, pos));
    }
    // at least one item
    proof {
        if w@.0 {
            assert(w@.1.len() > 0);
            assert(s@.skip(pos as int) =~= chat_msg_text(w@.1[0]) + (chats_rest_text(
                w@.1.skip(1),
            ) + w@.2));
        }
    }
    let ghost c0 = if w@.1.len() > 0 {
        w@.1[0]
    } else {
        arbitrary()
    };
    let mut i: usize;
    match parse_chat_msg(
        s,
        pos,
        Ghost((w@.0, c0, chats_rest_text(w@.1.skip(1)) + w@.2)),
    ) {
        None => {
            proof {
                if w@.0 {
                    assert(false);
                }
            }
            return None;
        },
        Some((c, e)) => {
            out.push(c);
            i = e;
        },
    }
    proof {
        if w@.0 {
            assert(out.deep_view() =~= w@.1.take(1));
            assert(w@.1.skip(out@.len() as int) == w@.1.skip(1));
        }
    }
    loop
        invariant
            pos <= i <= s@.len(),
            1 <= out@.len(),
            w@.0 ==> out@.len() <= w@.1.len() && out.deep_view() == w@.1.take(out@.len() as int)
                && s@.skip(i as int) == chats_rest_text(w@.1.skip(out@.len() as int)) + w@.2,
        decreases s@.len() - i,
    {
        let ghost k = out@.len() as int;
        proof {
            if w@.0 {
                if k < w@.1.len() {
                    assert(chats_rest_text(w@.1.skip(k)) == seq![44u8] + chat_msg_text(
                        w@.1.skip(k)[0],
                    ) + chats_rest_text(w@.1.skip(k).skip(1)));
                    assert(s@.skip(i as int)[0] == 44u8);
                    assert(s@.skip(i as int).len() >= 1);
                } else {
                    assert(chats_rest_text(w@.1.skip(k)) =~= Seq::<u8>::empty());
                    assert(s@.skip(i as int)[0] == w@.2[0]);
                    assert(s@.skip(i as int).len() >= 1);
                }
            }
        }
        if i >= s.len() {
            proof {
                if w@.0 {
                    assert(false);
                }
            }
            return None;
        }
        let b = s[i];
        proof {
            if w@.0 {
                assert(b == s@.skip(i as int)[0]);
            }
        }
        if b != 44u8 {
            proof {
                if w@.0 {
                    assert(out@.len() == w@.1.len());
                    assert(out.deep_view() =~= w@.1);
                    assert(chats_rest_text(w@.1.skip(out@.len() as int)) =~= Seq::<u8>::empty());
                    assert(s@.skip(i as int) =~= w@.2);
                }
            }
            return Some((out, i));
        }
        // a comma: another item follows
        proof {
            if w@.0 {
                if k >= w@.1.len() {
                    assert(s@.skip(i as int)[0] == 93u8);
                    assert(false);
                }
                assert(w@.1.skip(k).skip(1) =~= w@.1.skip(k + 1));
                assert(w@.1.skip(k)[0] == w@.1[k]);
                assert(chats_rest_text(w@.1.skip(k)) == seq![44u8] + chat_msg_text(w@.1[k])
                    + chats_rest_text(w@.1.skip(k + 1)));
                assert(s@.skip(i as int) =~= seq![44u8] + (chat_msg_text(w@.1[k])
                    + (chats_rest_text(w@.1.skip(k + 1)) + w@.2)));
                lemma_skip_parts(
                    s@,
                    i as int,
                    seq![44u8],
                    chat_msg_text(w@.1[k]) + (chats_rest_text(w@.1.skip(k + 1)) + w@.2),
                );
            }
        }
        let ghost ck = if k < w@.1.len() {
            w@.1[k]
        } else {
            arbitrary()
        };
        proof {
            if w@.0 {
                assert(s@.skip(i + 1) == chat_msg_text(w@.1[k]) + (chats_rest_text(
                    w@.1.skip(k + 1),
                ) + w@.2));
            }
        }
        match parse_chat_msg(
            s,
            i + 1,
            Ghost((w@.0, ck, chats_rest_text(w@.1.skip(k + 1)) + w@.2)),
        ) {
            None => {
                proof {
                    if w@.0 {
                        assert(false);
                    }
                }
                return None;
            },
            Some((c, e)) => {
                out.push(c);
                i = e;
                proof {
                    if w@.0 {
                        assert(out.deep_view() =~= w@.1.take(k + 1));
                    }
                }
            },
        }
    }
}

/// Reads a whole message text; accepts only a complete, canonical text.
#[verifier::rlimit(100)]
fn parse_message(s: &Vec<u8>, w: Ghost<(bool, SocketMessageView)>) -> (r: Option<SocketMessage>)
    requires
        w@.0 ==> s@ == msg_text(w@.1),
    ensures
        w@.0 ==> (r matches Some(m) && m@ == w@.1),
{
    proof {
        lemma_lit_facts();
        reveal_strlit("{\"type\":\"AUTH\",\"nonce\":\"");
        reveal_strlit("{\"type\":\"RESPONSE\",\"nonce\":\"");
        reveal_strlit("{\"type\":\"PING\",\"nonce\":\"");
        reveal_strlit("{\"type\":\"PONG\",\"nonce\":\"");
        reveal_strlit("{\"type\":\"CHAT\",\"data\":{\"chats\":[");
        reveal_strlit(",\"data\":{\"token\":\"");
        reveal_strlit(",\"data\":{\"gap\":");
        reveal_strlit("}}");
        reveal_strlit("]}}");
        if w@.0 {
            match w@.1 {
                SocketMessageView::Auth { .. } => {
                    assert(s@[9] == lit_auth()[9]);
                },
                SocketMessageView::Response { .. } => {
                    assert(s@[9] == lit_resp()[9]);
                },
                SocketMessageView::Ping { .. } => {
                    assert(s@[9] == lit_ping()[9]);
                    assert(s@[10] == lit_ping()[10]);
                },
                SocketMessageView::Pong { .. } => {
                    assert(s@[9] == lit_pong()[9]);
                    assert(s@[10] == lit_pong()[10]);
                },
                SocketMessageView::Chat { .. } => {
                    assert(s@[9] == lit_chat()[9]);
                },
            }
        }
    }
    let m_auth = match_lit(s, 0, "{\"type\":\"AUTH\",\"nonce\":\"");
    if let Some(p1) = m_auth {
        proof {
            if w@.0 {
                assert(s@.subrange(0, 24) == lit_auth());
                assert(s@[9] == lit_auth()[9]);
                assert(w@.1 is Auth);
            }
        }
        let ghost wn = match w@.1 {
            SocketMessageView::Auth { nonce, .. } => nonce,
            _ => arbitrary(),
        };
        let ghost wt = match w@.1 {
            SocketMessageView::Auth { token, .. } => token,
            _ => arbitrary(),
        };
        let ghost r1 = lit_data_token() + escape(wt) + seq![QUOTE] + lit_2rbrace();
        proof {
            if w@.0 {
                assert(s@.skip(0) =~= s@);
                assert(s@ =~= lit_auth() + (escape(wn) + seq![QUOTE] + r1));
                lemma_skip_parts(s@, 0, lit_auth(), escape(wn) + seq![QUOTE] + r1);
            }
        }
        let (nonce, p2) = match parse_string_at(s, p1, Ghost((w@.0, wn, r1))) {
            None => {
                proof {
                    if w@.0 {
                        assert(false);
                    }
                }
                return None;
            },
            Some(q) => q,
        };
        proof {
            if w@.0 {
                assert(s@.skip(p2 as int) == r1);
                assert(s@.skip(p2 as int) =~= lit_data_token() + (escape(wt) + seq![QUOTE]
                    + lit_2rbrace()));
                lemma_skip_parts(
                    s@,
                    p2 as int,
                    lit_data_token(),
                    escape(wt) + seq![QUOTE] + lit_2rbrace(),
                );
            }
        }
        let m2 = match_lit(s, p2, ",\"data\":{\"token\":\"");
        let p3 = match m2 {
            None => {
                proof {
                    if w@.0 {
                        assert(false);
                    }
                }
                return None;
            },
            Some(e) => e,
        };
        let (token, p4) = match parse_string_at(
            s,
            p3,
            Ghost((w@.0, wt, lit_2rbrace())),
        ) {
            None => {
                proof {
                    if w@.0 {
                        assert(false);
                    }
                }
                return None;
            },
            Some(q) => q,
        };
        proof {
            if w@.0 {
                assert(s@.skip(p4 as int) == lit_2rbrace());
                assert(s@.skip(p4 as int) =~= lit_2rbrace() + Seq::<u8>::empty());
                lemma_skip_parts(s@, p4 as int, lit_2rbrace(), Seq::<u8>::empty());
            }
        }
        let m3 = match_lit(s, p4, "}}");
        let p5 = match m3 {
            None => {
                proof {
                    if w@.0 {
                        assert(false);
                    }
                }
                return None;
            },
            Some(e) => e,
        };
        if p5 != s.len() {
            proof {
                if w@.0 {
                    assert(s@.skip(p4 as int).len() == 2);
                    assert(false);
                }
            }
            return None;
        }
        let msg = SocketMessage::Auth { nonce, token };
        proof {
            if w@.0 {
                assert(msg@ == w@.1);
            }
        }
        return Some(msg);
    }
    let m_resp = match_lit(s, 0, "{\"type\":\"RESPONSE\",\"nonce\":\"");
    if let Some(p1) = m_resp {
        proof {
            if w@.0 {
                assert(s@.subrange(0, 28) == lit_resp());
                assert(s@[9] == lit_resp()[9]);
                if w@.1 is Auth {
                    assert(s@[9] == lit_auth()[9]);
                    assert(false);
                }
                assert(w@.1 is Response);
            }
        }
        let ghost wn = match w@.1 {
            SocketMessageView::Response { nonce } => nonce,
            _ => arbitrary(),
        };
        proof {
            if w@.0 {
                assert(s@.skip(0) =~= s@);
                assert(s@ =~= lit_resp() + (escape(wn) + seq![QUOTE] + lit_rbrace()));
                lemma_skip_parts(s@, 0, lit_resp(), escape(wn) + seq![QUOTE] + lit_rbrace());
            }
        }
        match parse_nonce_end(s, p1, Ghost((w@.0, wn))) {
            None => {
                proof {
                    if w@.0 {
                        assert(false);
                    }
                }
                return None;
            },
            Some(nonce) => {
                let msg = SocketMessage::Response { nonce };
                proof {
                    if w@.0 {
                        assert(msg@ == w@.1);
                    }
                }
                return Some(msg);
            },
        }
    }
    let m_ping = match_lit(s, 0, "{\"type\":\"PING\",\"nonce\":\"");
    if let Some(p1) = m_ping {
        proof {
            if w@.0 {
                assert(s@.subrange(0, 24) == lit_ping());
                assert(s@[9] == lit_ping()[9]);
                assert(s@[10] == lit_ping()[10]);
                if w@.1 is Auth {
                    assert(s@[9] == lit_auth()[9]);
                    assert(false);
                }
                if w@.1 is Response {
                    assert(s@[9] == lit_resp()[9]);
                    assert(false);
                }
                if w@.1 is Chat {
                    assert(s@[9] == lit_chat()[9]);
                    assert(false);
                }
                if w@.1 is Pong {
                    assert(s@[10] == lit_pong()[10]);
                    assert(false);
                }
                assert(w@.1 is Ping);
            }
        }
        let ghost wn = match w@.1 {
            SocketMessageView::Ping { nonce } => nonce,
            _ => arbitrary(),
        };
        proof {
            if w@.0 {
                assert(s@.skip(0) =~= s@);
                assert(s@ =~= lit_ping() + (escape(wn) + seq![QUOTE] + lit_rbrace()));
                lemma_skip_parts(s@, 0, lit_ping(), escape(wn) + seq![QUOTE] + lit_rbrace());
            }
        }
        match parse_nonce_end(s, p1, Ghost((w@.0, wn))) {
            None => {
                proof {
                    if w@.0 {
                        assert(false);
                    }
                }
                return None;
            },
            Some(nonce) => {
                let msg = SocketMessage::Ping { nonce };
                proof {
                    if w@.0 {
                        assert(msg@ == w@.1);
                    }
                }
                return Some(msg);
            },
        }
    }
    let m_pong = match_lit(s, 0, "{\"type\":\"PONG\",\"nonce\":\"");
    if let Some(p1) = m_pong {
        proof {
            if w@.0 {
                assert(s@.subrange(0, 24) == lit_pong());
                assert(s@[9] == lit_pong()[9]);
                assert(s@[10] == lit_pong()[10]);
                if w@.1 is Auth {
                    assert(s@[9] == lit_auth()[9]);
                    assert(false);
                }
                if w@.1 is Response {
                    assert(s@[9] == lit_resp()[9]);
                    assert(false);
                }
                if w@.1 is Chat {
                    assert(s@[9] == lit_chat()[9]);
                    assert(false);
                }
                if w@.1 is Ping {
                    assert(s@[10] == lit_ping()[10]);
                    assert(false);
                }
                assert(w@.1 is Pong);
            }
        }
        let ghost wn = match w@.1 {
            SocketMessageView::Pong { nonce, .. } => nonce,
            _ => arbitrary(),
        };
        let ghost wg = match w@.1 {
            SocketMessageView::Pong { gap, .. } => gap,
            _ => arbitrary(),
        };
        let ghost r1 = lit_data_gap() + dec_digits(wg as nat) + lit_2rbrace();
        proof {
            if w@.0 {
                assert(s@.skip(0) =~= s@);
                assert(s@ =~= lit_pong() + (escape(wn) + seq![QUOTE] + r1));
                lemma_skip_parts(s@, 0, lit_pong(), escape(wn) + seq![QUOTE] + r1);
            }
        }
        let (nonce, p2) = match parse_string_at(s, p1, Ghost((w@.0, wn, r1))) {
            None => {
                proof {
                    if w@.0 {
                        assert(false);
                    }
                }
                return None;
            },
            Some(q) => q,
        };
        proof {
            if w@.0 {
                assert(s@.skip(p2 as int) == r1);
                assert(s@.skip(p2 as int) =~= lit_data_gap() + (dec_digits(wg as nat)
                    + lit_2rbrace()));
                lemma_skip_parts(s@, p2 as int, lit_data_gap(), dec_digits(wg as nat)
                    + lit_2rbrace());
            }
        }
        let m2 = match_lit(s, p2, ",\"data\":{\"gap\":");
        let p3 = match m2 {
            None => {
                proof {
                    if w@.0 {
                        assert(false);
                    }
                }
                return None;
            },
            Some(e) => e,
        };
        proof {
            if w@.0 {
                assert(lit_2rbrace()[0] == 125u8);
                assert(!is_digit(lit_2rbrace()[0]));
            }
        }
        let (gap, p4) = match parse_u64_at(s, p3, Ghost((w@.0, wg, lit_2rbrace()))) {
            None => {
                proof {
                    if w@.0 {
                        assert(false);
                    }
                }
                return None;
            },
            Some(q) => q,
        };
        proof {
            if w@.0 {
                assert(s@.skip(p4 as int) == lit_2rbrace());
                assert(s@.skip(p4 as int) =~= lit_2rbrace() + Seq::<u8>::empty());
                lemma_skip_parts(s@, p4 as int, lit_2rbrace(), Seq::<u8>::empty());
            }
        }
        let m3 = match_lit(s, p4, "}}");
        let p5 = match m3 {
            None => {
                proof {
                    if w@.0 {
                        assert(false);
                    }
                }
                return None;
            },
            Some(e) => e,
        };
        if p5 != s.len() {
            proof {
                if w@.0 {
                    assert(s@.skip(p4 as int).len() == 2);
                    assert(false);
                }
            }
            return None;
        }
        let msg = SocketMessage::Pong { nonce, gap };
        proof {
            if w@.0 {
                assert(msg@ == w@.1);
            }
        }
        return Some(msg);
    }
    let m_chat = match_lit(s, 0, "{\"type\":\"CHAT\",\"data\":{\"chats\":[");
    if let Some(p1) = m_chat {
        proof {
            if w@.0 {
                assert(s@.subrange(0, 32) == lit_chat());
                assert(s@[9] == lit_chat()[9]);
                if w@.1 is Auth {
                    assert(s@[9] == lit_auth()[9]);
                    assert(false);
                }
                if w@.1 is Response {
                    assert(s@[9] == lit_resp()[9]);
                    assert(false);
                }
                if w@.1 is Ping {
                    assert(s@[9] == lit_ping()[9]);
                    assert(false);
                }
                if w@.1 is Pong {
                    assert(s@[9] == lit_pong()[9]);
                    assert(false);
                }
                assert(w@.1 is Chat);
            }
        }
        let ghost wc = match w@.1 {
            SocketMessageView::Chat { chats } => chats,
            _ => arbitrary(),
        };
        proof {
            if w@.0 {
                assert(s@.skip(0) =~= s@);
                assert(s@ =~= lit_chat() + (chats_text(wc) + lit_chat_close()));
                lemma_skip_parts(s@, 0, lit_chat(), chats_text(wc) + lit_chat_close());
                assert(s@.skip(p1 as int) =~= chats_text(wc) + lit_chat_close());
                assert(lit_chat_close()[0] == 93u8);
            }
        }
        let (chats, p2) = match parse_chats(s, p1, Ghost((w@.0, wc, lit_chat_close()))) {
            None => {
                proof {
                    if w@.0 {
                        assert(false);
                    }
                }
                return None;
            },
            Some(q) => q,
        };
        proof {
            if w@.0 {
                assert(s@.skip(p2 as int) == lit_chat_close());
                assert(s@.skip(p2 as int) =~= lit_chat_close() + Seq::<u8>::empty());
                lemma_skip_parts(s@, p2 as int, lit_chat_close(), Seq::<u8>::empty());
            }
        }
        let m2 = match_lit(s, p2, "]}}");
        let p3 = match m2 {
            None => {
                proof {
                    if w@.0 {
                        assert(false);
                    }
                }
                return None;
            },
            Some(e) => e,
        };
        if p3 != s.len() {
            proof {
                if w@.0 {
                    assert(s@.skip(p2 as int).len() == 3);
                    assert(false);
                }
            }
            return None;
        }
        let msg = SocketMessage::Chat { chats };
        proof {
            if w@.0 {
                assert(msg@ == w@.1);
            }
        }
        return Some(msg);
    }
    proof {
        if w@.0 {
            match w@.1 {
                SocketMessageView::Auth { nonce, token } => {
                    let rest = escape(nonce) + seq![QUOTE] + lit_data_token() + escape(token)
                        + seq![QUOTE] + lit_2rbrace();
                    assert(s@.skip(0) =~= lit_auth() + rest);
                    lemma_skip_parts(s@, 0, lit_auth(), rest);
                    assert(false);
                },
                SocketMessageView::Response { nonce } => {
                    let rest = escape(nonce) + seq![QUOTE] + lit_rbrace();
                    assert(s@.skip(0) =~= lit_resp() + rest);
                    lemma_skip_parts(s@, 0, lit_resp(), rest);
                    assert(false);
                },
                SocketMessageView::Ping { nonce } => {
                    let rest = escape(nonce) + seq![QUOTE] + lit_rbrace();
                    assert(s@.skip(0) =~= lit_ping() + rest);
                    lemma_skip_parts(s@, 0, lit_ping(), rest);
                    assert(false);
                },
                SocketMessageView::Pong { nonce, gap } => {
                    let rest = escape(nonce) + seq![QUOTE] + lit_data_gap() + dec_digits(
                        gap as nat,
                    ) + lit_2rbrace();
                    assert(s@.skip(0) =~= lit_pong() + rest);
                    lemma_skip_parts(s@, 0, lit_pong(), rest);
                    assert(false);
                },
                SocketMessageView::Chat { chats } => {
                    let rest = chats_text(chats) + lit_chat_close();
                    assert(s@.skip(0) =~= lit_chat() + rest);
                    lemma_skip_parts(s@, 0, lit_chat(), rest);
                    assert(false);
                },
            }
        }
    }
    None
}

/// Equal texts with an equal prefix have equal tails.
proof fn lemma_concat_cancel(a: Seq<u8>, b: Seq<u8>, c: Seq<u8>)
    requires
        a + b == a + c,
    ensures
        b == c,
{
    assert((a + b).len() == a.len() + b.len());
    assert((a + c).len() == a.len() + c.len());
    assert(b.len() == c.len());
    assert forall|i: int| 0 <= i < b.len() implies b[i] == c[i] by {
        assert((a + b)[a.len() + i] == b[i]);
        assert((a + c)[a.len() + i] == c[i]);
    }
    assert(b =~= c);
}

/// A quoted string determines its body and what follows the closing
/// quote: the escape is unambiguous.
proof fn lemma_escape_framing(x1: Seq<u8>, r1: Seq<u8>, x2: Seq<u8>, r2: Seq<u8>)
    requires
        escape(x1) + seq![QUOTE] + r1 == escape(x2) + seq![QUOTE] + r2,
    ensures
        x1 == x2,
        r1 == r2,
    decreases x1.len(),
{
    let lhs = escape(x1) + seq![QUOTE] + r1;
    let rhs = escape(x2) + seq![QUOTE] + r2;
    if x1.len() == 0 && x2.len() == 0 {
        assert(escape(x1) =~= Seq::<u8>::empty());
        assert(escape(x2) =~= Seq::<u8>::empty());
        assert(x1 =~= x2);
        assert(seq![QUOTE] + r1 =~= lhs);
        assert(seq![QUOTE] + r2 =~= rhs);
        lemma_concat_cancel(seq![QUOTE], r1, r2);
    } else if x1.len() == 0 {
        assert(escape(x1) =~= Seq::<u8>::empty());
        assert(lhs[0] == QUOTE);
        assert(escape(x2) == esc_byte(x2[0]) + escape(x2.skip(1)));
        assert(rhs[0] == esc_byte(x2[0])[0]);
        if x2[0] == QUOTE || x2[0] == BACKSLASH {
            assert(esc_byte(x2[0])[0] == BACKSLASH);
        } else {
            assert(esc_byte(x2[0])[0] == x2[0]);
        }
        assert(false);
    } else if x2.len() == 0 {
        assert(escape(x2) =~= Seq::<u8>::empty());
        assert(rhs[0] == QUOTE);
        assert(escape(x1) == esc_byte(x1[0]) + escape(x1.skip(1)));
        assert(lhs[0] == esc_byte(x1[0])[0]);
        if x1[0] == QUOTE || x1[0] == BACKSLASH {
            assert(esc_byte(x1[0])[0] == BACKSLASH);
        } else {
            assert(esc_byte(x1[0])[0] == x1[0]);
        }
        assert(false);
    } else {
        let h1 = x1[0];
        let h2 = x2[0];
        assert(escape(x1) == esc_byte(h1) + escape(x1.skip(1)));
        assert(escape(x2) == esc_byte(h2) + escape(x2.skip(1)));
        assert(lhs =~= esc_byte(h1) + (escape(x1.skip(1)) + seq![QUOTE] + r1));
        assert(rhs =~= esc_byte(h2) + (escape(x2.skip(1)) + seq![QUOTE] + r2));
        if h1 == QUOTE || h1 == BACKSLASH {
            assert(lhs[0] == BACKSLASH);
            if !(h2 == QUOTE || h2 == BACKSLASH) {
                assert(rhs[0] == h2);
                assert(false);
            }
            assert(lhs[1] == h1);
            assert(rhs[1] == h2);
            assert(h1 == h2);
        } else {
            assert(lhs[0] == h1);
            if h2 == QUOTE || h2 == BACKSLASH {
                assert(rhs[0] == BACKSLASH);
                assert(false);
            }
            assert(rhs[0] == h2);
            assert(h1 == h2);
        }
        lemma_concat_cancel(
            esc_byte(h1),
            escape(x1.skip(1)) + seq![QUOTE] + r1,
            escape(x2.skip(1)) + seq![QUOTE] + r2,
        );
        lemma_escape_framing(x1.skip(1), r1, x2.skip(1), r2);
        assert(x1 =~= seq![h1] + x1.skip(1));
        assert(x2 =~= seq![h2] + x2.skip(1));
    }
}

/// A decimal number followed by a non-digit determines its value and
/// what follows it.
proof fn lemma_dec_framing(n1: nat, r1: Seq<u8>, n2: nat, r2: Seq<u8>)
    requires
        dec_digits(n1) + r1 == dec_digits(n2) + r2,
        r1.len() > 0 ==> !is_digit(r1[0]),
        r2.len() > 0 ==> !is_digit(r2[0]),
    ensures
        n1 == n2,
        r1 == r2,
{
    lemma_dec_digits_are_digits(n1);
    lemma_dec_digits_are_digits(n2);
    let d1 = dec_digits(n1);
    let d2 = dec_digits(n2);
    let lhs = d1 + r1;
    let rhs = d2 + r2;
    if d1.len() < d2.len() {
        assert(r1.len() > 0);
        assert(lhs[d1.len() as int] == r1[0]);
        assert(rhs[d1.len() as int] == d2[d1.len() as int]);
        assert(is_digit(d2[d1.len() as int]));
        assert(false);
    }
    if d2.len() < d1.len() {
        assert(r2.len() > 0);
        assert(rhs[d2.len() as int] == r2[0]);
        assert(lhs[d2.len() as int] == d1[d2.len() as int]);
        assert(is_digit(d1[d2.len() as int]));
        assert(false);
    }
    assert forall|i: int| 0 <= i < d1.len() implies d1[i] == d2[i] by {
        assert(lhs[i] == d1[i]);
        assert(rhs[i] == d2[i]);
    }
    assert(d1 =~= d2);
    lemma_dec_val_of_dec_digits(n1);
    lemma_dec_val_of_dec_digits(n2);
    lemma_concat_cancel(d1, r1, r2);
}

/// A signed decimal number followed by a non-digit determines its value
/// and what follows it.
proof fn lemma_idec_framing(i1: int, r1: Seq<u8>, i2: int, r2: Seq<u8>)
    requires
        idec_digits(i1) + r1 == idec_digits(i2) + r2,
        r1.len() > 0 ==> !is_digit(r1[0]),
        r2.len() > 0 ==> !is_digit(r2[0]),
    ensures
        i1 == i2,
        r1 == r2,
{
    let lhs = idec_digits(i1) + r1;
    let rhs = idec_digits(i2) + r2;
    lemma_dec_digits_are_digits(if i1 < 0 { (-i1) as nat } else { i1 as nat });
    lemma_dec_digits_are_digits(if i2 < 0 { (-i2) as nat } else { i2 as nat });
    if i1 < 0 && i2 >= 0 {
        assert(lhs[0] == 45u8);
        assert(rhs[0] == dec_digits(i2 as nat)[0]);
        assert(false);
    }
    if i1 >= 0 && i2 < 0 {
        assert(rhs[0] == 45u8);
        assert(lhs[0] == dec_digits(i1 as nat)[0]);
        assert(false);
    }
    if i1 < 0 {
        assert(lhs =~= seq![45u8] + (dec_digits((-i1) as nat) + r1));
        assert(rhs =~= seq![45u8] + (dec_digits((-i2) as nat) + r2));
        lemma_concat_cancel(
            seq![45u8],
            dec_digits((-i1) as nat) + r1,
            dec_digits((-i2) as nat) + r2,
        );
        lemma_dec_framing((-i1) as nat, r1, (-i2) as nat, r2);
    } else {
        lemma_dec_framing(i1 as nat, r1, i2 as nat, r2);
    }
}

/// One chat item's text determines the item and what follows it.
#[verifier::rlimit(100)]
proof fn lemma_chat_msg_framing(c1: ChatMessageView, r1: Seq<u8>, c2: ChatMessageView, r2: Seq<u8>)
    requires
        chat_msg_text(c1) + r1 == chat_msg_text(c2) + r2,
    ensures
        c1 == c2,
        r1 == r2,
{
    lemma_lit_facts();
    let q1 = opt_sender_text(c1.sender_id) + (lit_nick() + (escape(c1.nick_name) + seq![QUOTE]
        + (lit_content() + (escape(c1.content) + seq![QUOTE] + (lit_time() + (idec_digits(
        c1.send_time as int,
    ) + (lit_rbrace() + r1)))))));
    let q2 = opt_sender_text(c2.sender_id) + (lit_nick() + (escape(c2.nick_name) + seq![QUOTE]
        + (lit_content() + (escape(c2.content) + seq![QUOTE] + (lit_time() + (idec_digits(
        c2.send_time as int,
    ) + (lit_rbrace() + r2)))))));
    assert(chat_msg_text(c1) + r1 =~= lit_sender() + q1);
    assert(chat_msg_text(c2) + r2 =~= lit_sender() + q2);
    lemma_concat_cancel(lit_sender(), q1, q2);
    // the sender: absent starts with a letter, a number with a sign or digit
    match (c1.sender_id, c2.sender_id) {
        (Option::None, Option::Some(j)) => {
            assert(q1[0] == lit_null()[0]);
            lemma_dec_digits_are_digits(
                if j < 0 {
                    (-(j as int)) as nat
                } else {
                    j as nat
                },
            );
            if j < 0 {
                assert(q2[0] == 45u8);
            } else {
                assert(q2[0] == dec_digits(j as nat)[0]);
            }
            assert(false);
        },
        (Option::Some(j), Option::None) => {
            assert(q2[0] == lit_null()[0]);
            lemma_dec_digits_are_digits(
                if j < 0 {
                    (-(j as int)) as nat
                } else {
                    j as nat
                },
            );
            if j < 0 {
                assert(q1[0] == 45u8);
            } else {
                assert(q1[0] == dec_digits(j as nat)[0]);
            }
            assert(false);
        },
        (Option::None, Option::None) => {
            lemma_concat_cancel(
                lit_null(),
                q1.skip(lit_null().len() as int),
                q2.skip(lit_null().len() as int),
            );
            assert(q1 =~= lit_null() + q1.skip(4));
            assert(q2 =~= lit_null() + q2.skip(4));
        },
        (Option::Some(j1), Option::Some(j2)) => {
            assert(q1 =~= idec_digits(j1 as int) + (lit_nick() + (escape(c1.nick_name)
                + seq![QUOTE] + (lit_content() + (escape(c1.content) + seq![QUOTE] + (lit_time()
                + (idec_digits(c1.send_time as int) + (lit_rbrace() + r1))))))));
            assert(q2 =~= idec_digits(j2 as int) + (lit_nick() + (escape(c2.nick_name)
                + seq![QUOTE] + (lit_content() + (escape(c2.content) + seq![QUOTE] + (lit_time()
                + (idec_digits(c2.send_time as int) + (lit_rbrace() + r2))))))));
            lemma_idec_framing(
                j1 as int,
                lit_nick() + (escape(c1.nick_name) + seq![QUOTE] + (lit_content() + (escape(
                    c1.content,
                ) + seq![QUOTE] + (lit_time() + (idec_digits(c1.send_time as int) + (lit_rbrace()
                    + r1)))))),
                j2 as int,
                lit_nick() + (escape(c2.nick_name) + seq![QUOTE] + (lit_content() + (escape(
                    c2.content,
                ) + seq![QUOTE] + (lit_time() + (idec_digits(c2.send_time as int) + (lit_rbrace()
                    + r2)))))),
            );
        },
    }
    // beyond the sender the two texts agree
    let t1 = escape(c1.nick_name) + seq![QUOTE] + (lit_content() + (escape(c1.content)
        + seq![QUOTE] + (lit_time() + (idec_digits(c1.send_time as int) + (lit_rbrace() + r1)))));
    let t2 = escape(c2.nick_name) + seq![QUOTE] + (lit_content() + (escape(c2.content)
        + seq![QUOTE] + (lit_time() + (idec_digits(c2.send_time as int) + (lit_rbrace() + r2)))));
    assert(lit_nick() + t1 == lit_nick() + t2) by {
        match c1.sender_id {
            Option::None => {
                assert(q1 =~= lit_null() + (lit_nick() + t1));
                assert(q2 =~= lit_null() + (lit_nick() + t2));
                lemma_concat_cancel(lit_null(), lit_nick() + t1, lit_nick() + t2);
            },
            Option::Some(j1) => {
                assert(q1 =~= idec_digits(j1 as int) + (lit_nick() + t1));
                assert(q2 =~= idec_digits(j1 as int) + (lit_nick() + t2));
                lemma_concat_cancel(idec_digits(j1 as int), lit_nick() + t1, lit_nick() + t2);
            },
        }
    }
    lemma_concat_cancel(lit_nick(), t1, t2);
    lemma_escape_framing(
        c1.nick_name,
        lit_content() + (escape(c1.content) + seq![QUOTE] + (lit_time() + (idec_digits(
            c1.send_time as int,
        ) + (lit_rbrace() + r1)))),
        c2.nick_name,
        lit_content() + (escape(c2.content) + seq![QUOTE] + (lit_time() + (idec_digits(
            c2.send_time as int,
        ) + (lit_rbrace() + r2)))),
    );
    lemma_concat_cancel(
        lit_content(),
        escape(c1.content) + seq![QUOTE] + (lit_time() + (idec_digits(c1.send_time as int) + (
        lit_rbrace() + r1))),
        escape(c2.content) + seq![QUOTE] + (lit_time() + (idec_digits(c2.send_time as int) + (
        lit_rbrace() + r2))),
    );
    lemma_escape_framing(
        c1.content,
        lit_time() + (idec_digits(c1.send_time as int) + (lit_rbrace() + r1)),
        c2.content,
        lit_time() + (idec_digits(c2.send_time as int) + (lit_rbrace() + r2)),
    );
    lemma_concat_cancel(
        lit_time(),
        idec_digits(c1.send_time as int) + (lit_rbrace() + r1),
        idec_digits(c2.send_time as int) + (lit_rbrace() + r2),
    );
    lemma_idec_framing(
        c1.send_time as int,
        lit_rbrace() + r1,
        c2.send_time as int,
        lit_rbrace() + r2,
    );
    lemma_concat_cancel(lit_rbrace(), r1, r2);
}

/// A chat list's text, up to a closing bracket, determines the items and
/// what follows them.
#[verifier::rlimit(100)]
proof fn lemma_chats_framing(cs1: Seq<ChatMessageView>, r1: Seq<u8>, cs2: Seq<ChatMessageView>, r2: Seq<u8>)
    requires
        chats_text(cs1) + r1 == chats_text(cs2) + r2,
        r1.len() > 0,
        r1[0] == 93u8,
        r2.len() > 0,
        r2[0] == 93u8,
    ensures
        cs1 == cs2,
        r1 == r2,
    decreases cs1.len(),
{
    lemma_lit_facts();
    let lhs = chats_text(cs1) + r1;
    let rhs = chats_text(cs2) + r2;
    if cs1.len() == 0 && cs2.len() == 0 {
        assert(chats_text(cs1) =~= Seq::<u8>::empty());
        assert(chats_text(cs2) =~= Seq::<u8>::empty());
        assert(cs1 =~= cs2);
        assert(r1 =~= lhs);
        assert(r2 =~= rhs);
    } else if cs1.len() == 0 {
        assert(lhs[0] == r1[0]);
        assert(rhs[0] == chat_msg_text(cs2[0])[0]);
        assert(chat_msg_text(cs2[0])[0] == lit_sender()[0]);
        assert(false);
    } else if cs2.len() == 0 {
        assert(rhs[0] == r2[0]);
        assert(lhs[0] == chat_msg_text(cs1[0])[0]);
        assert(chat_msg_text(cs1[0])[0] == lit_sender()[0]);
        assert(false);
    } else {
        assert(lhs =~= chat_msg_text(cs1[0]) + (chats_rest_text(cs1.skip(1)) + r1));
        assert(rhs =~= chat_msg_text(cs2[0]) + (chats_rest_text(cs2.skip(1)) + r2));
        lemma_chat_msg_framing(
            cs1[0],
            chats_rest_text(cs1.skip(1)) + r1,
            cs2[0],
            chats_rest_text(cs2.skip(1)) + r2,
        );
        // the tails: either both lists end, or both continue with a comma
        if cs1.skip(1).len() == 0 && cs2.skip(1).len() == 0 {
            assert(chats_rest_text(cs1.skip(1)) =~= Seq::<u8>::empty());
            assert(chats_rest_text(cs2.skip(1)) =~= Seq::<u8>::empty());
            assert(r1 =~= chats_rest_text(cs1.skip(1)) + r1);
            assert(r2 =~= chats_rest_text(cs2.skip(1)) + r2);
            assert(cs1 =~= cs2);
        } else if cs1.skip(1).len() == 0 {
            assert((chats_rest_text(cs1.skip(1)) + r1)[0] == r1[0]);
            assert((chats_rest_text(cs2.skip(1)) + r2)[0] == 44u8);
            assert(false);
        } else if cs2.skip(1).len() == 0 {
            assert((chats_rest_text(cs2.skip(1)) + r2)[0] == r2[0]);
            assert((chats_rest_text(cs1.skip(1)) + r1)[0] == 44u8);
            assert(false);
        } else {
            assert(chats_rest_text(cs1.skip(1)) + r1 =~= seq![44u8] + (chats_text(cs1.skip(1))
                + r1)) by {
                assert(chats_rest_text(cs1.skip(1)) == seq![44u8] + chat_msg_text(cs1.skip(1)[0])
                    + chats_rest_text(cs1.skip(1).skip(1)));
                assert(chats_text(cs1.skip(1)) == chat_msg_text(cs1.skip(1)[0]) + chats_rest_text(
                    cs1.skip(1).skip(1),
                ));
            }
            assert(chats_rest_text(cs2.skip(1)) + r2 =~= seq![44u8] + (chats_text(cs2.skip(1))
                + r2)) by {
                assert(chats_rest_text(cs2.skip(1)) == seq![44u8] + chat_msg_text(cs2.skip(1)[0])
                    + chats_rest_text(cs2.skip(1).skip(1)));
                assert(chats_text(cs2.skip(1)) == chat_msg_text(cs2.skip(1)[0]) + chats_rest_text(
                    cs2.skip(1).skip(1),
                ));
            }
            lemma_concat_cancel(seq![44u8], chats_text(cs1.skip(1)) + r1, chats_text(cs2.skip(1))
                + r2);
            lemma_chats_framing(cs1.skip(1), r1, cs2.skip(1), r2);
            assert(cs1 =~= seq![cs1[0]] + cs1.skip(1));
            assert(cs2 =~= seq![cs2[0]] + cs2.skip(1));
        }
    }
}

/// Two messages with the same wire text are the same message.
#[verifier::rlimit(100)]
pub proof fn lemma_msg_text_injective(m1: SocketMessageView, m2: SocketMessageView)
    requires
        msg_text(m1) == msg_text(m2),
    ensures
        m1 == m2,
{
    lemma_lit_facts();
    let s = msg_text(m1);
    // the discriminating bytes pin the message kind
    match (m1, m2) {
        (SocketMessageView::Auth { nonce: n1, token: t1 }, SocketMessageView::Auth {
            nonce: n2,
            token: t2,
        }) => {
            let q1 = escape(n1) + seq![QUOTE] + (lit_data_token() + (escape(t1) + seq![QUOTE]
                + lit_2rbrace()));
            let q2 = escape(n2) + seq![QUOTE] + (lit_data_token() + (escape(t2) + seq![QUOTE]
                + lit_2rbrace()));
            assert(msg_text(m1) =~= lit_auth() + q1);
            assert(msg_text(m2) =~= lit_auth() + q2);
            lemma_concat_cancel(lit_auth(), q1, q2);
            lemma_escape_framing(
                n1,
                lit_data_token() + (escape(t1) + seq![QUOTE] + lit_2rbrace()),
                n2,
                lit_data_token() + (escape(t2) + seq![QUOTE] + lit_2rbrace()),
            );
            lemma_concat_cancel(
                lit_data_token(),
                escape(t1) + seq![QUOTE] + lit_2rbrace(),
                escape(t2) + seq![QUOTE] + lit_2rbrace(),
            );
            lemma_escape_framing(t1, lit_2rbrace(), t2, lit_2rbrace());
        },
        (SocketMessageView::Response { nonce: n1 }, SocketMessageView::Response { nonce: n2 }) => {
            let q1 = escape(n1) + seq![QUOTE] + lit_rbrace();
            let q2 = escape(n2) + seq![QUOTE] + lit_rbrace();
            assert(msg_text(m1) =~= lit_resp() + q1);
            assert(msg_text(m2) =~= lit_resp() + q2);
            lemma_concat_cancel(lit_resp(), q1, q2);
            lemma_escape_framing(n1, lit_rbrace(), n2, lit_rbrace());
        },
        (SocketMessageView::Ping { nonce: n1 }, SocketMessageView::Ping { nonce: n2 }) => {
            let q1 = escape(n1) + seq![QUOTE] + lit_rbrace();
            let q2 = escape(n2) + seq![QUOTE] + lit_rbrace();
            assert(msg_text(m1) =~= lit_ping() + q1);
            assert(msg_text(m2) =~= lit_ping() + q2);
            lemma_concat_cancel(lit_ping(), q1, q2);
            lemma_escape_framing(n1, lit_rbrace(), n2, lit_rbrace());
        },
        (SocketMessageView::Pong { nonce: n1, gap: g1 }, SocketMessageView::Pong {
            nonce: n2,
            gap: g2,
        }) => {
            let q1 = escape(n1) + seq![QUOTE] + (lit_data_gap() + (dec_digits(g1 as nat)
                + lit_2rbrace()));
            let q2 = escape(n2) + seq![QUOTE] + (lit_data_gap() + (dec_digits(g2 as nat)
                + lit_2rbrace()));
            assert(msg_text(m1) =~= lit_pong() + q1);
            assert(msg_text(m2) =~= lit_pong() + q2);
            lemma_concat_cancel(lit_pong(), q1, q2);
            lemma_escape_framing(
                n1,
                lit_data_gap() + (dec_digits(g1 as nat) + lit_2rbrace()),
                n2,
                lit_data_gap() + (dec_digits(g2 as nat) + lit_2rbrace()),
            );
            lemma_concat_cancel(
                lit_data_gap(),
                dec_digits(g1 as nat) + lit_2rbrace(),
                dec_digits(g2 as nat) + lit_2rbrace(),
            );
            lemma_dec_framing(g1 as nat, lit_2rbrace(), g2 as nat, lit_2rbrace());
        },
        (SocketMessageView::Chat { chats: c1 }, SocketMessageView::Chat { chats: c2 }) => {
            let q1 = chats_text(c1) + lit_chat_close();
            let q2 = chats_text(c2) + lit_chat_close();
            assert(msg_text(m1) =~= lit_chat() + q1);
            assert(msg_text(m2) =~= lit_chat() + q2);
            lemma_concat_cancel(lit_chat(), q1, q2);
            lemma_chats_framing(c1, lit_chat_close(), c2, lit_chat_close());
        },
        _ => {
            // differing kinds disagree at a discriminating byte
            assert(s[9] == msg_text(m1)[9]);
            if m1 is Auth {
                assert(s[9] == lit_auth()[9]);
            }
            if m1 is Response {
                assert(s[9] == lit_resp()[9]);
            }
            if m1 is Ping {
                assert(s[9] == lit_ping()[9]);
                assert(s[10] == lit_ping()[10]);
            }
            if m1 is Pong {
                assert(s[9] == lit_pong()[9]);
                assert(s[10] == lit_pong()[10]);
            }
            if m1 is Chat {
                assert(s[9] == lit_chat()[9]);
            }
            if m2 is Auth {
                assert(s[9] == lit_auth()[9]);
            }
            if m2 is Response {
                assert(s[9] == lit_resp()[9]);
            }
            if m2 is Ping {
                assert(s[9] == lit_ping()[9]);
                assert(s[10] == lit_ping()[10]);
            }
            if m2 is Pong {
                assert(s[9] == lit_pong()[9]);
                assert(s[10] == lit_pong()[10]);
            }
            if m2 is Chat {
                assert(s[9] == lit_chat()[9]);
            }
            assert(false);
        },
    }
}

/// True when a byte string is a non-empty run of digits whose value fits
/// in a machine word — the strings [`parse_u64_dec`] accepts.
pub open spec fn parses_as_u64(s: Seq<u8>) -> bool {
    s.len() > 0 && (forall|i: int| 0 <= i < s.len() ==> is_digit(#[trigger] s[i])) && dec_val(s)
        <= u64::MAX
}

/// Reads a whole byte string as an unsigned decimal number, leading zeros
/// allowed. Returns nothing when a byte is not a digit, the string is
/// empty, or the value does not fit.
#[verifier::loop_isolation(false)]
pub fn parse_u64_dec(s: &Vec<u8>) -> (r: Option<u64>)
    ensures
        r is Some <==> parses_as_u64(s@),
        r matches Some(v) ==> v == dec_val(s@),
{
    if s.len() == 0 {
        return None;
    }
    let mut acc: u64 = 0;
    let mut i: usize = 0;
    while i < s.len()
        invariant
            i <= s@.len(),
            forall|k: int| 0 <= k < i ==> is_digit(#[trigger] s@[k]),
            acc == dec_val(s@.take(i as int)),
        decreases s@.len() - i,
    {
        let b = s[i];
        if b < 48 || b > 57 {
            return None;
        }
        proof {
            lemma_dec_val_push(s@.take(i as int), s@[i as int]);
            assert(s@.take(i as int).push(s@[i as int]) =~= s@.take(i + 1));
        }
        let d = (b - 48) as u64;
        let a1 = match acc.checked_mul(10) {
            Some(a1) => a1,
            None => {
                proof {
                    if parses_as_u64(s@) {
                        lemma_dec_val_prefix(s@, i + 1);
                        assert(acc * 10 <= dec_val(s@.take(i + 1)));
                        assert(false);
                    }
                }
                return None;
            },
        };
        let a2 = match a1.checked_add(d) {
            Some(a2) => a2,
            None => {
                proof {
                    if parses_as_u64(s@) {
                        lemma_dec_val_prefix(s@, i + 1);
                        assert(acc * 10 + d == dec_val(s@.take(i + 1)));
                        assert(false);
                    }
                }
                return None;
            },
        };
        acc = a2;
        i = i + 1;
    }
    proof {
        assert(s@.take(s@.len() as int) =~= s@);
    }
    Some(acc)
}

/// Decodes a wire text into the message it encodes.
///
/// Succeeds exactly on the canonical texts that [`encode_message`]
/// produces, and then returns the message whose text the input is.
pub fn decode_message(s: &Vec<u8>) -> (r: Option<SocketMessage>)
    ensures
        r matches Some(m) ==> s@ == msg_text(m@),
        forall|mv: SocketMessageView| s@ == msg_text(mv) ==> (r matches Some(m) && m@ == mv),
{
    let ghost has = exists|mv: SocketMessageView| s@ == msg_text(mv);
    let ghost wmv: SocketMessageView = if has {
        choose|mv: SocketMessageView| s@ == msg_text(mv)
    } else {
        arbitrary()
    };
    match parse_message(s, Ghost((has, wmv))) {
        None => {
            proof {
                if has {
                    assert(false);
                }
            }
            None
        },
        Some(m) => {
            let e = encode_message(&m);
            if bytes_eq(&e, s) {
                proof {
                    assert forall|mv: SocketMessageView| s@ == msg_text(mv) implies m@ == mv by {
                        lemma_msg_text_injective(m@, mv);
                    }
                }
                Some(m)
            } else {
                proof {
                    if has {
                        assert(e@ == msg_text(m@));
                        assert(m@ == wmv);
                        assert(false);
                    }
                }
                None
            }
        },
    }
}

} // verus!
