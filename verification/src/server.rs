//! The compute side of the one-shot login-redirect capture: parsing the
//! query parameters out of the request a browser sends, and the reply
//! text. Listening and the socket I/O live outside the library.

use crate::codec::ascii_seq;
use crate::codec::dec_digits;
use crate::codec::u64_to_dec;
use crate::codec::append_ascii;
use std::collections::HashMap;
use vstd::prelude::*;
use vstd::string::StrSliceExecFns;
use vstd::string::StringSliceAdditionalSpecFns;
use vstd::string::StringExecFns;

verus! {

/// The first position of `c` in `s` at or after `i`, or the length when
/// there is none.
pub open spec fn find_from(s: Seq<char>, c: char, i: int) -> int
    decreases s.len() - i,
{
    if i < 0 || i >= s.len() {
        s.len() as int
    } else if s[i] == c {
        i
    } else {
        find_from(s, c, i + 1)
    }
}

/// What `find_from` returns: the first occurrence, or the length.
proof fn lemma_find_from(s: Seq<char>, c: char, i: int)
    requires
        0 <= i <= s.len(),
    ensures
        i <= find_from(s, c, i) <= s.len(),
        find_from(s, c, i) < s.len() ==> s[find_from(s, c, i)] == c,
        forall|j: int| i <= j < find_from(s, c, i) ==> s[j] != c,
    decreases s.len() - i,
{
    if i < s.len() && s[i] != c {
        lemma_find_from(s, c, i + 1);
    }
}

/// Finds `c` in `s`, scanning from `from`.
#[verifier::loop_isolation(false)]
fn find_char(s: &str, c: char, from: usize) -> (r: usize)
    requires
        from <= s@.len(),
    ensures
        r == find_from(s@, c, from as int),
{
    proof {
        lemma_find_from(s@, c, from as int);
    }
    let n = s.unicode_len();
    let mut i = from;
    while i < n
        invariant
            from <= i <= n,
            forall|j: int| from <= j < i ==> s@[j] != c,
        decreases n - i,
    {
        if s.get_char(i) == c {
            proof {
                let f = find_from(s@, c, from as int);
                if f < i {
                    assert(s@[f] != c);
                    assert(false);
                }
                if f > i {
                    assert(s@[i as int] != c);
                    assert(false);
                }
            }
            return i;
        }
        i = i + 1;
    }
    proof {
        let f = find_from(s@, c, from as int);
        if f < s@.len() {
            assert(s@[f] != c);
            assert(false);
        }
    }
    n
}

/// The key and value of one `key=value` segment: the key runs to the
/// first `=`, the value from there to the next `=` or the end.
pub open spec fn seg_pair(seg: Seq<char>) -> (Seq<char>, Seq<char>) {
    let p = find_from(seg, '=', 0);
    let q = find_from(seg, '=', p + 1);
    (seg.take(p), seg.subrange(p + 1, q))
}

/// A segment is well formed when it has an `=`.
pub open spec fn seg_wf(seg: Seq<char>) -> bool {
    find_from(seg, '=', 0) < seg.len()
}

/// The `&`-separated segments of a query string.
pub open spec fn split_segs(s: Seq<char>) -> Seq<Seq<char>>
    decreases s.len(),
{
    let a = find_from(s, '&', 0);
    if 0 <= a < s.len() {
        seq![s.take(a)] + split_segs(s.skip(a + 1))
    } else {
        seq![s]
    }
}

/// A query string parses when each of its segments has an `=`.
pub open spec fn params_wf(s: Seq<char>) -> bool {
    forall|i: int| 0 <= i < split_segs(s).len() ==> seg_wf(#[trigger] split_segs(s)[i])
}

/// The key-value pairs of a query string, in order.
pub open spec fn parse_params(s: Seq<char>) -> Seq<(Seq<char>, Seq<char>)> {
    split_segs(s).map_values(|seg| seg_pair(seg))
}

/// Parses a string like `key1=value1&key2=value2` into its pairs, in
/// order.
pub fn get_params(path: &str) -> (r: Vec<(String, String)>)
    requires
        params_wf(path@),
    ensures
        r@.len() == parse_params(path@).len(),
        forall|i: int|
            0 <= i < r@.len() ==> r@[i].0@ == parse_params(path@)[i].0 && r@[i].1@ == parse_params(
                path@,
            )[i].1,
    decreases path@.len(),
{
    proof {
        lemma_find_from(path@, '&', 0);
    }
    let n = path.unicode_len();
    let a = find_char(path, '&', 0);
    let seg = path.substring_char(0, a);
    let ghost segs = split_segs(path@);
    proof {
        if a == n {
            assert(path@.take(a as int) =~= path@);
        }
        assert(segs[0] == path@.take(a as int));
        assert(seg_wf(seg@));
        lemma_find_from(seg@, '=', 0);
    }
    let p = find_char(seg, '=', 0);
    proof {
        lemma_find_from(seg@, '=', p + 1);
    }
    let q = find_char(seg, '=', p + 1);
    let key = seg.substring_char(0, p).to_owned();
    let value = seg.substring_char(p + 1, q).to_owned();
    let mut out: Vec<(String, String)> = Vec::new();
    out.push((key, value));
    proof {
        assert(seg@.take(p as int) == seg_pair(segs[0]).0);
        assert(seg@.subrange(p + 1, q as int) == seg_pair(segs[0]).1);
    }
    if a < n {
        let rest = path.substring_char(a + 1, n);
        proof {
            assert(rest@ =~= path@.skip(a + 1));
            assert(segs == seq![path@.take(a as int)] + split_segs(rest@));
            assert forall|i: int| 0 <= i < split_segs(rest@).len() implies seg_wf(
                #[trigger] split_segs(rest@)[i],
            ) by {
                assert(split_segs(rest@)[i] == segs[i + 1]);
            }
        }
        let mut tail = get_params(rest);
        out.append(&mut tail);
        proof {
            assert forall|i: int| 0 <= i < out@.len() implies out@[i].0@ == parse_params(
                path@,
            )[i].0 && out@[i].1@ == parse_params(path@)[i].1 by {
                if i > 0 {
                    assert(segs[i] == split_segs(rest@)[i - 1]);
                    assert(parse_params(path@)[i] == parse_params(rest@)[i - 1]);
                }
            }
        }
    } else {
        proof {
            assert(segs =~= seq![path@]);
        }
    }
    out
}

/// The pairs as a hash map, later entries overriding earlier ones, as
/// collecting into a map does. The map's behaviour is the hash table's
/// own; the verified lookup logic works on the pair list instead.
pub fn vec_to_hashmap(v: Vec<(String, String)>) -> (r: HashMap<String, String>)
{
    let mut m: HashMap<String, String> = HashMap::new();
    let mut i: usize = 0;
    while i < v.len()
        decreases v@.len() - i,
    {
        let key = v[i].0.clone();
        let value = v[i].1.clone();
        m.insert(key, value);
        i = i + 1;
    }
    m
}

/// The value of the last pair with the given key.
pub open spec fn lookup_last(ps: Seq<(Seq<char>, Seq<char>)>, k: Seq<char>) -> Option<Seq<char>>
    decreases ps.len(),
{
    if ps.len() == 0 {
        Option::None
    } else if ps.last().0 == k {
        Option::Some(ps.last().1)
    } else {
        lookup_last(ps.drop_last(), k)
    }
}

/// Whether each segment of a query string has an `=`.
#[verifier::loop_isolation(false)]
fn params_wellformed(s: &str) -> (b: bool)
    ensures
        b == params_wf(s@),
    decreases s@.len(),
{
    proof {
        lemma_find_from(s@, '&', 0);
    }
    let n = s.unicode_len();
    let a = find_char(s, '&', 0);
    let seg = s.substring_char(0, a);
    let ghost segs = split_segs(s@);
    proof {
        if a == n {
            assert(s@.take(a as int) =~= s@);
        }
        assert(segs[0] == s@.take(a as int));
        lemma_find_from(seg@, '=', 0);
    }
    let p = find_char(seg, '=', 0);
    let seg_n = seg.unicode_len();
    if p >= seg_n {
        proof {
            assert(!seg_wf(segs[0]));
        }
        return false;
    }
    if a < n {
        let rest = s.substring_char(a + 1, n);
        proof {
            assert(rest@ =~= s@.skip(a + 1));
            assert(segs == seq![s@.take(a as int)] + split_segs(rest@));
        }
        let tail_ok = params_wellformed(rest);
        proof {
            if tail_ok && seg_wf(segs[0]) {
                assert forall|i: int| 0 <= i < segs.len() implies seg_wf(#[trigger] segs[i]) by {
                    if i > 0 {
                        assert(segs[i] == split_segs(rest@)[i - 1]);
                    }
                }
            }
            if !tail_ok {
                let j = choose|j: int|
                    0 <= j < split_segs(rest@).len() && !seg_wf(#[trigger] split_segs(rest@)[j]);
                assert(segs[j + 1] == split_segs(rest@)[j]);
                assert(!params_wf(s@));
            }
        }
        tail_ok
    } else {
        proof {
            assert(segs =~= seq![s@]);
        }
        true
    }
}

/// Extracts the `code` parameter from a query string: the last `code`
/// pair wins, as it does in the hash map. A malformed query yields
/// nothing.
#[verifier::loop_isolation(false)]
pub fn code_from_query(query: &str) -> (r: Option<String>)
    ensures
        !params_wf(query@) ==> r is None,
        params_wf(query@) ==> (r is Some) == (lookup_last(parse_params(query@), "code"@) is Some),
        params_wf(query@) ==> (r matches Some(v) ==> lookup_last(parse_params(query@), "code"@)
            == Option::Some(v@)),
{
    if !params_wellformed(query) {
        return None;
    }
    let params = get_params(query);
    let key = String::from_str("code");
    let ghost ps = parse_params(query@);
    let mut j: usize = params.len();
    proof {
        assert(ps.take(j as int) =~= ps);
    }
    while j > 0
        invariant
            j <= params@.len(),
            params@.len() == ps.len(),
            key@ == "code"@,
            forall|i: int|
                0 <= i < params@.len() ==> params@[i].0@ == ps[i].0 && params@[i].1@ == ps[i].1,
            lookup_last(ps, "code"@) == lookup_last(ps.take(j as int), "code"@),
        decreases j,
    {
        if params[j - 1].0 == key {
            proof {
                assert(ps.take(j as int).last() == ps[j - 1]);
                assert(ps[j - 1].0 == "code"@);
            }
            return Some(params[j - 1].1.clone());
        }
        proof {
            assert(ps.take(j as int).last() == ps[j - 1]);
            assert(ps.take(j as int).drop_last() =~= ps.take(j - 1));
        }
        j = j - 1;
    }
    proof {
        assert(ps.take(0) =~= Seq::<(Seq<char>, Seq<char>)>::empty());
    }
    None
}

/// What an HTTP request's path reads as, by httparse, from the raw
/// bytes alone.
pub uninterp spec fn http_request_path_of(b: Seq<u8>) -> Option<Seq<char>>;

/// Relies on httparse's request parsing: whether the buffer parses and
/// what path it carries depend on the bytes alone. As the capture reads
/// only a prefix of the request, a partial parse is the expected case;
/// a complete or failed parse yields nothing, as the original flow
/// treats those as unusable requests.
#[verifier::external_body]
fn parse_request_path(buf: &Vec<u8>) -> (r: Option<String>)
    ensures
        (r matches Some(p) ==> http_request_path_of(buf@) == Option::Some(p@)),
        (r is None ==> http_request_path_of(buf@) is None),
{
    let mut headers = [httparse::EMPTY_HEADER; 64];
    let mut req = httparse::Request::new(&mut headers);
    match req.parse(buf.as_slice()) {
        Ok(res) if res.is_partial() => req.path.map(|p| p.to_string()),
        _ => None,
    }
}

/// What a request path's query part is, by http's Uri parsing, from the
/// text alone.
pub uninterp spec fn uri_query_of(p: Seq<char>) -> Option<Seq<char>>;

/// Relies on http's `Uri` parsing: the query part is a function of the
/// path text alone; an invalid path or one without a query yields
/// nothing.
#[verifier::external_body]
fn uri_query_part(path: &str) -> (r: Option<String>)
    ensures
        (r matches Some(q) ==> uri_query_of(path@) == Option::Some(q@)),
        (r is None ==> uri_query_of(path@) is None),
{
    match path.parse::<http::Uri>() {
        Ok(u) => u.query().map(|q| q.to_string()),
        Err(_) => None,
    }
}

/// The `code` parameter carried by a captured request: the request's
/// path, its query part, and the last `code` pair of a well-formed
/// query.
pub open spec fn code_of_request(b: Seq<u8>) -> Option<Seq<char>> {
    match http_request_path_of(b) {
        Option::None => Option::None,
        Option::Some(p) => match uri_query_of(p) {
            Option::None => Option::None,
            Option::Some(q) => if params_wf(q) {
                lookup_last(parse_params(q), "code"@)
            } else {
                Option::None
            },
        },
    }
}

/// Extracts the login code from the raw bytes of a captured request.
pub fn code_from_request(buf: &Vec<u8>) -> (r: Option<String>)
    ensures
        (r matches Some(v) ==> code_of_request(buf@) == Option::Some(v@)),
        (r is None ==> code_of_request(buf@) is None),
{
    proof {
        reveal_strlit("code");
    }
    match parse_request_path(buf) {
        None => None,
        Some(p) => match uri_query_part(p.as_str()) {
            None => None,
            Some(q) => code_from_query(q.as_str()),
        },
    }
}

/// The reply the capture sends back: a success line carrying the code.
/// The content length counts the code's bytes, as the original reply
/// did.
pub fn oauth_http_response(code: &str) -> (r: Vec<u8>)
    ensures
        r@ == ascii_seq("HTTP/1.1 200 OK\r\nContent-Length: "@) + dec_digits(
            code.spec_bytes().len(),
        ) + ascii_seq("\r\n\r\nSuccess "@) + code.spec_bytes(),
{
    proof {
        reveal_strlit("HTTP/1.1 200 OK\r\nContent-Length: ");
        reveal_strlit("\r\n\r\nSuccess ");
    }
    let mut out: Vec<u8> = Vec::new();
    append_ascii(&mut out, "HTTP/1.1 200 OK\r\nContent-Length: ");
    let n = code.as_bytes_vec();
    let mut d = u64_to_dec(n.len() as u64);
    out.append(&mut d);
    append_ascii(&mut out, "\r\n\r\nSuccess ");
    let mut body = code.as_bytes_vec();
    out.append(&mut body);
    out
}

} // verus!
