//! Calls to the inbox API, shared by the write path
//! (`POST /v1/mailboxes/{from}/send`) and the read path (`GET ...`).
//!
//! The library frames each call: where to connect and the exact request
//! text, with `Authorization: Bearer <token>` so that the token never
//! leaves the actor. It also reads the reply: the receive loop's decisions
//! and the parse of the response. The socket work is the caller's.

use crate::handler::HandlerState;
use crate::request::{url_encode, url_encoded};
use crate::render::{extra_header_lines, reason_phrase, response_bytes, response_head};
use crate::request::lemma_lacks_concat;
use crate::text::{
    chars_of, chars_eq, copy_range, crlf, decimal, find, find_char, find_exec, is_digit, lacks,
    lemma_decimal_digits, lemma_find, match_at,
    lemma_split_nonempty, one, owned, parse_unsigned, parse_unsigned_exec, push_decimal, push_str,
    range_holds, rfind_char, rfind_char_exec, split, split_once, split_ranges, str_from_utf8,
    string_of, string_of_range,
};
use vstd::prelude::*;
use vstd::utf8::*;

verus! {

broadcast use vstd::utf8::group_utf8_lib;

/// The mail to send: recipients, copies, subject and body. Serialized to
/// JSON by the caller; `cc` is left out of the JSON when it is empty.
pub struct SendRequest {
    pub to: Vec<String>,
    pub cc: Vec<String>,
    pub subject: String,
    pub body: String,
}

/// A mail to send, as sequences.
pub struct SendModel {
    pub to: Seq<Seq<char>>,
    pub cc: Seq<Seq<char>>,
    pub subject: Seq<char>,
    pub body: Seq<char>,
}

/// The texts of a vector of strings.
pub open spec fn texts(v: Seq<String>) -> Seq<Seq<char>> {
    v.map_values(|s: String| s@)
}

impl View for SendRequest {
    type V = SendModel;

    open spec fn view(&self) -> SendModel {
        SendModel { to: texts(self.to@), cc: texts(self.cc@), subject: self.subject@, body: self.body@ }
    }
}

/// The status and body of an API response.
pub struct ApiResponse {
    pub status: u16,
    pub body: String,
}

/// One call to make to the API: where to connect and what to send.
pub struct ApiCall {
    pub host: String,
    pub port: u16,
    pub request: String,
}

// ---------------------------------------------------------------------
// Base URL
// ---------------------------------------------------------------------

/// `"://"`.
pub open spec fn scheme_separator() -> Seq<char> {
    seq![':', '/', '/']
}

/// Host, port and whether TLS is meant, as the API base URL gives them: the
/// scheme must be `https` (default port 443) or `http` (default port 80);
/// any path after the authority is ignored; the port, when given after the
/// last `:` of the authority, must be a `u16`.
pub open spec fn base_url_parts(url: Seq<char>) -> Result<(Seq<char>, u16, bool), Seq<char>> {
    match split_once(url, scheme_separator()) {
        None => Err("api_base_url missing scheme: "@ + url),
        Some((scheme, rest)) => if scheme != "https"@ && scheme != "http"@ {
            Err("unsupported scheme "@ + scheme)
        } else {
            let use_tls = scheme == "https"@;
            let authority = split(rest, one('/'))[0];
            match rfind_char(authority, ':') {
                Some(i) => match parse_unsigned(authority.skip(i + 1), 65535) {
                    Some(port) => Ok((authority.take(i), port as u16, use_tls)),
                    None => Err("bad port in "@ + url),
                },
                None => Ok((authority, if use_tls { 443u16 } else { 80u16 }, use_tls)),
            }
        },
    }
}

fn concat(a: &str, b: &str) -> (r: String)
    ensures
        r@ == a@ + b@,
{
    let mut s = owned(a);
    push_str(&mut s, b);
    s
}

/// Splits the API base URL into host, port and whether it is `https`.
pub fn parse_base_url(url: &str) -> (r: Result<(String, u16, bool), String>)
    ensures
        match r {
            Ok(t) => base_url_parts(url@) == Ok::<(Seq<char>, u16, bool), Seq<char>>(
                (t.0@, t.1, t.2),
            ),
            Err(e) => base_url_parts(url@) == Err::<(Seq<char>, u16, bool), Seq<char>>(e@),
        },
{
    let v = chars_of(url);
    let sep = vec![':', '/', '/'];
    assert(sep@ =~= scheme_separator());
    let found = find_exec(&v, &sep);
    let at = match found {
        Some(i) => i,
        None => return Err(concat("api_base_url missing scheme: ", url)),
    };
    proof {
        lemma_find(v@, scheme_separator());
        let j = find(v@, sep@)->0;
        assert(find(v@, sep@) is Some);
        assert(0 <= j && j + 3 <= v@.len());
        assert(at == j as usize);
    }
    let scheme = copy_range(&v, 0, at);
    let rest = copy_range(&v, at + 3, v.len());
    assert(scheme@ =~= v@.take(at as int));
    assert(rest@ =~= v@.skip(at + 3));
    let https = chars_of("https");
    let http = chars_of("http");
    let use_tls = if chars_eq(&scheme, &https) {
        true
    } else if chars_eq(&scheme, &http) {
        false
    } else {
        let s = string_of(&scheme);
        return Err(concat("unsupported scheme ", s.as_str()));
    };
    let slash = vec!['/'];
    assert(slash@ =~= one('/'));
    let pieces = split_ranges(&rest, &slash);
    proof {
        lemma_split_nonempty(rest@, one('/'));
        assert(range_holds(rest@, pieces@[0], split(rest@, one('/'))[0]));
    }
    let authority = copy_range(&rest, pieces[0].0, pieces[0].1);
    match rfind_char_exec(&authority, ':') {
        Some(i) => {
            let port_text = copy_range(&authority, i + 1, authority.len());
            assert(port_text@ =~= authority@.skip(i + 1));
            match parse_unsigned_exec(&port_text, 65535) {
                Some(p) => {
                    let host = string_of_range(&authority, 0, i);
                    assert(host@ =~= authority@.take(i as int));
                    Ok((host, p as u16, use_tls))
                },
                None => Err(concat("bad port in ", url)),
            }
        },
        None => {
            let host = string_of(&authority);
            Ok((host, if use_tls { 443 } else { 80 }, use_tls))
        },
    }
}

// ---------------------------------------------------------------------
// Request framing
// ---------------------------------------------------------------------

/// The exact text of a request to the API.
pub open spec fn request_text(
    method: Seq<char>,
    path: Seq<char>,
    host: Seq<char>,
    token: Seq<char>,
    body: Option<Seq<char>>,
) -> Seq<char> {
    let content_headers = match body {
        Some(b) => "Content-Type: application/json\r\nContent-Length: "@ + decimal(
            encode_utf8(b).len(),
        ) + "\r\n"@,
        None => Seq::empty(),
    };
    method + " "@ + path + " HTTP/1.1\r\nHost: "@ + host + "\r\nAuthorization: Bearer "@ + token
        + "\r\n"@ + content_headers + "Connection: close\r\n\r\n"@ + match body {
        Some(b) => b,
        None => Seq::empty(),
    }
}

/// The call that a request to the API makes: where to connect, and what to send.
pub open spec fn api_call_for(
    base_url: Seq<char>,
    token: Seq<char>,
    method: Seq<char>,
    path: Seq<char>,
    body: Option<Seq<char>>,
) -> Result<(Seq<char>, u16, Seq<char>), Seq<char>> {
    match base_url_parts(base_url) {
        Ok(parts) => Ok((parts.0, parts.1, request_text(method, path, parts.0, token, body))),
        Err(e) => Err(e),
    }
}

/// The view of a planned call.
pub open spec fn call_view(c: ApiCall) -> (Seq<char>, u16, Seq<char>) {
    (c.host@, c.port, c.request@)
}

fn api_request(state: &HandlerState, method: &str, path: &str, body: Option<&str>) -> (r: Result<
    ApiCall,
    String,
>)
    ensures
        match r {
            Ok(c) => api_call_for(
                state.api_base_url@,
                state.api_bearer_token@,
                method@,
                path@,
                match body {
                    Some(b) => Some(b@),
                    None => None,
                },
            ) == Ok::<(Seq<char>, u16, Seq<char>), Seq<char>>(call_view(c)),
            Err(e) => api_call_for(
                state.api_base_url@,
                state.api_bearer_token@,
                method@,
                path@,
                match body {
                    Some(b) => Some(b@),
                    None => None,
                },
            ) == Err::<(Seq<char>, u16, Seq<char>), Seq<char>>(e@),
        },
{
    let (host, port, _use_tls) = match parse_base_url(state.api_base_url.as_str()) {
        Ok(t) => t,
        Err(e) => return Err(e),
    };
    let ghost body_view = match body {
        Some(b) => Some(b@),
        None => None,
    };
    let ghost token = state.api_bearer_token@;
    let mut req = owned(method);
    push_str(&mut req, " ");
    push_str(&mut req, path);
    push_str(&mut req, " HTTP/1.1\r\nHost: ");
    push_str(&mut req, host.as_str());
    push_str(&mut req, "\r\nAuthorization: Bearer ");
    push_str(&mut req, state.api_bearer_token.as_str());
    push_str(&mut req, "\r\n");
    let ghost start = method@ + " "@ + path@ + " HTTP/1.1\r\nHost: "@ + host@
        + "\r\nAuthorization: Bearer "@ + token + "\r\n"@;
    assert(req@ =~= start);
    let ghost content_headers = match body_view {
        Some(b) => "Content-Type: application/json\r\nContent-Length: "@ + decimal(
            encode_utf8(b).len(),
        ) + "\r\n"@,
        None => Seq::<char>::empty(),
    };
    match body {
        Some(b) => {
            push_str(&mut req, "Content-Type: application/json\r\nContent-Length: ");
            let n = b.as_bytes().len();
            assert(n == encode_utf8(b@).len());
            push_decimal(&mut req, n as u64);
            push_str(&mut req, "\r\n");
            assert(req@ =~= start + content_headers);
        },
        None => {
            assert(req@ =~= start + content_headers);
        },
    }
    push_str(&mut req, "Connection: close\r\n\r\n");
    let ghost tail = match body_view {
        Some(b) => b,
        None => Seq::<char>::empty(),
    };
    match body {
        Some(b) => {
            push_str(&mut req, b);
        },
        None => {},
    }
    assert(req@ =~= start + content_headers + "Connection: close\r\n\r\n"@ + tail);
    assert(req@ =~= request_text(method@, path@, host@, token, body_view));
    Ok(ApiCall { host, port, request: req })
}

/// The `GET` call for an API path.
pub fn api_get(state: &HandlerState, path: &str) -> (r: Result<ApiCall, String>)
    ensures
        match r {
            Ok(c) => api_call_for(state.api_base_url@, state.api_bearer_token@, "GET"@, path@, None)
                == Ok::<(Seq<char>, u16, Seq<char>), Seq<char>>(call_view(c)),
            Err(e) => api_call_for(state.api_base_url@, state.api_bearer_token@, "GET"@, path@, None)
                == Err::<(Seq<char>, u16, Seq<char>), Seq<char>>(e@),
        },
{
    api_request(state, "GET", path, None)
}

/// The `POST` call for an API path with a JSON body.
pub fn api_post(state: &HandlerState, path: &str, body: &str) -> (r: Result<ApiCall, String>)
    ensures
        match r {
            Ok(c) => api_call_for(
                state.api_base_url@,
                state.api_bearer_token@,
                "POST"@,
                path@,
                Some(body@),
            ) == Ok::<(Seq<char>, u16, Seq<char>), Seq<char>>(call_view(c)),
            Err(e) => api_call_for(
                state.api_base_url@,
                state.api_bearer_token@,
                "POST"@,
                path@,
                Some(body@),
            ) == Err::<(Seq<char>, u16, Seq<char>), Seq<char>>(e@),
        },
{
    api_request(state, "POST", path, Some(body))
}

/// The API path that sends mail from a mailbox.
pub open spec fn send_path(from: Seq<char>) -> Seq<char> {
    "/v1/mailboxes/"@ + url_encoded(from) + "/send"@
}

/// The call that sends mail from `from`; `json` is the serialized
/// `SendRequest`.
pub fn send_mail(state: &HandlerState, from: &str, json: &str) -> (r: Result<ApiCall, String>)
    ensures
        match r {
            Ok(c) => api_call_for(
                state.api_base_url@,
                state.api_bearer_token@,
                "POST"@,
                send_path(from@),
                Some(json@),
            ) == Ok::<(Seq<char>, u16, Seq<char>), Seq<char>>(call_view(c)),
            Err(e) => api_call_for(
                state.api_base_url@,
                state.api_bearer_token@,
                "POST"@,
                send_path(from@),
                Some(json@),
            ) == Err::<(Seq<char>, u16, Seq<char>), Seq<char>>(e@),
        },
{
    let mut path = owned("/v1/mailboxes/");
    let enc = url_encode(from);
    push_str(&mut path, enc.as_str());
    push_str(&mut path, "/send");
    api_post(state, path.as_str(), json)
}

impl ApiCall {
    /// The address to connect to, `host:port`.
    pub fn address(&self) -> (r: String)
        ensures
            r@ == self.host@ + ":"@ + decimal(self.port as nat),
    {
        let mut a = owned(self.host.as_str());
        push_str(&mut a, ":");
        push_decimal(&mut a, self.port as u64);
        a
    }

    /// The error when the connection cannot be made.
    pub fn connect_failed(&self, e: &str) -> (r: String)
        ensures
            r@ == "tcp_connect "@ + self.host@ + ":"@ + decimal(self.port as nat) + ": "@ + e@,
    {
        let mut m = owned("tcp_connect ");
        let a = self.address();
        push_str(&mut m, a.as_str());
        push_str(&mut m, ": ");
        push_str(&mut m, e);
        m
    }
}

/// The error when the request cannot be sent.
pub fn send_failed(e: &str) -> (r: String)
    ensures
        r@ == "send: "@ + e@,
{
    concat("send: ", e)
}

// ---------------------------------------------------------------------
// Receiving
// ---------------------------------------------------------------------

/// The most response bytes read from the API.
pub const RESPONSE_LIMIT: usize = 65536;

/// What to do after one receive.
pub enum RecvStep {
    /// Receive again.
    More,
    /// Stop receiving; the response is complete as far as it goes.
    End,
    /// Stop and fail the call with this error.
    Fail(String),
}

/// Takes one receive result: an empty chunk ends the response; a chunk is
/// added, and the response ends once it holds `RESPONSE_LIMIT` bytes; an
/// error fails the call when nothing was received yet, and otherwise ends
/// the response there.
pub fn receive_step(acc: &mut Vec<u8>, chunk: Result<Vec<u8>, String>) -> (r: RecvStep)
    ensures
        match chunk {
            Ok(c) => if c@.len() == 0 {
                final(acc)@ == old(acc)@ && r is End
            } else {
                &&& final(acc)@ == old(acc)@ + c@
                &&& (r is End <==> final(acc)@.len() >= RESPONSE_LIMIT)
                &&& (r is More <==> final(acc)@.len() < RESPONSE_LIMIT)
            },
            Err(e) => final(acc)@ == old(acc)@ && if old(acc)@.len() == 0 {
                r matches RecvStep::Fail(m) && m@ == "recv: "@ + e@
            } else {
                r is End
            },
        },
{
    match chunk {
        Ok(mut c) => {
            if c.len() == 0 {
                RecvStep::End
            } else {
                acc.append(&mut c);
                if acc.len() >= RESPONSE_LIMIT {
                    RecvStep::End
                } else {
                    RecvStep::More
                }
            }
        },
        Err(e) => {
            if acc.len() == 0 {
                RecvStep::Fail(concat("recv: ", e.as_str()))
            } else {
                RecvStep::End
            }
        },
    }
}

// ---------------------------------------------------------------------
// Response parsing
// ---------------------------------------------------------------------

/// How `{:?}` writes a string: quoted, with escapes.
pub uninterp spec fn debug_text(s: Seq<char>) -> Seq<char>;

/// `<str as Debug>::fmt` through `format!("{:?}", s)`: its result is
/// `debug_text` of the text; which escapes it uses is left to std.
#[verifier::external_body]
fn debug_quoted(s: &str) -> (r: String)
    ensures
        r@ == debug_text(s@),
{
    format!("{:?}", s)
}

/// `line` without one trailing carriage return.
pub open spec fn strip_cr(line: Seq<char>) -> Seq<char> {
    if line.len() > 0 && line.last() == '\r' {
        line.drop_last()
    } else {
        line
    }
}

/// The first line of a head, as `str::lines` gives it: up to the first
/// `\n` with a `\r` before it dropped; empty for an empty head.
pub open spec fn first_line(head: Seq<char>) -> Seq<char> {
    if head.len() == 0 {
        Seq::empty()
    } else {
        match find(head, one('\n')) {
            Some(i) => strip_cr(head.take(i)),
            None => head,
        }
    }
}

/// The status code of a status line: its second space-separated piece,
/// parsed as a `u16`.
pub open spec fn status_of(line: Seq<char>) -> Option<nat> {
    let parts = split(line, one(' '));
    if parts.len() > 1 {
        parse_unsigned(parts[1], 65535)
    } else {
        None
    }
}

/// What the bytes of an API response parse to: status and body, or the
/// reason they are refused.
pub open spec fn parse_response(bytes: Seq<u8>) -> Result<(u16, Seq<char>), Seq<char>> {
    if !valid_utf8(bytes) {
        Err("non-utf8 api response"@)
    } else {
        match split_once(decode_utf8(bytes), crate::request::head_separator()) {
            None => Err("malformed api response"@),
            Some((head, body)) => match status_of(first_line(head)) {
                Some(s) => Ok((s as u16, body)),
                None => Err("can't parse status from "@ + debug_text(first_line(head))),
            },
        }
    }
}

/// Parses the status and body of an HTTP response.
pub fn parse_http_response(bytes: &[u8]) -> (r: Result<ApiResponse, String>)
    ensures
        match r {
            Ok(resp) => parse_response(bytes@) == Ok::<(u16, Seq<char>), Seq<char>>(
                (resp.status, resp.body@),
            ),
            Err(e) => parse_response(bytes@) == Err::<(u16, Seq<char>), Seq<char>>(e@),
        },
{
    let text = match str_from_utf8(bytes) {
        Some(t) => t,
        None => return Err(owned("non-utf8 api response")),
    };
    let v = chars_of(text);
    let sep = vec!['\r', '\n', '\r', '\n'];
    assert(sep@ =~= crate::request::head_separator());
    let found = find_exec(&v, &sep);
    let at = match found {
        Some(i) => i,
        None => return Err(owned("malformed api response")),
    };
    proof {
        lemma_find(v@, sep@);
        let j = find(v@, sep@)->0;
        assert(find(v@, sep@) is Some);
        assert(0 <= j && j + 4 <= v@.len());
        assert(at == j as usize);
        assert(at + 4 <= v.len());
    }
    let head = copy_range(&v, 0, at);
    assert(head@ =~= v@.take(at as int));
    let body = string_of_range(&v, at + 4, v.len());
    assert(body@ =~= v@.skip(at + 4));
    let line: Vec<char> = if head.len() == 0 {
        Vec::new()
    } else {
        match find_char(&head, '\n') {
            Some(i) => {
                proof {
                    lemma_find(head@, one('\n'));
                }
                let end = if i > 0 && head[i - 1] == '\r' {
                    i - 1
                } else {
                    i
                };
                let l = copy_range(&head, 0, end);
                if i > 0 {
                    assert(head@.take(i as int).drop_last() =~= head@.take(i - 1));
                }
                assert(l@ =~= strip_cr(head@.take(i as int)));
                l
            },
            None => copy_range(&head, 0, head.len()),
        }
    };
    assert(line@ =~= first_line(head@));
    let space = vec![' '];
    assert(space@ =~= one(' '));
    let parts = split_ranges(&line, &space);
    let status: Option<u64> = if parts.len() > 1 {
        assert(range_holds(line@, parts@[1], split(line@, one(' '))[1]));
        let piece = copy_range(&line, parts[1].0, parts[1].1);
        parse_unsigned_exec(&piece, 65535)
    } else {
        None
    };
    match status {
        Some(s) => Ok(ApiResponse { status: s as u16, body }),
        None => {
            let l = string_of(&line);
            let d = debug_quoted(l.as_str());
            Err(concat("can't parse status from ", d.as_str()))
        },
    }
}

// ---------------------------------------------------------------------
// Responses read back
// ---------------------------------------------------------------------

/// `s` ends with `\r\n`.
pub open spec fn ends_crlf(s: Seq<char>) -> bool {
    s.len() >= 2 && s[s.len() - 2] == '\r' && s[s.len() - 1] == '\n'
}

/// A blank line, `\r\n\r\n`, starts at `i`.
pub open spec fn blank_at(s: Seq<char>, i: int) -> bool {
    s[i] == '\r' && s[i + 1] == '\n' && s[i + 2] == '\r' && s[i + 3] == '\n'
}

/// No blank line occurs in `s`.
pub open spec fn no_blank_line(s: Seq<char>) -> bool {
    forall|i: int| 0 <= i && i + 4 <= s.len() ==> !#[trigger] blank_at(s, i)
}

/// Adding a non-empty line without `\r`, and its `\r\n`, to text that has
/// no blank line and ends a line leaves no blank line.
proof fn lemma_add_line(x: Seq<char>, l: Seq<char>)
    requires
        x.len() == 0 || ends_crlf(x),
        no_blank_line(x),
        l.len() > 0,
        lacks(l, '\r'),
    ensures
        no_blank_line(x + l + crlf()),
        ends_crlf(x + l + crlf()),
{
    let y = x + l + crlf();
    assert forall|i: int| 0 <= i && i + 4 <= y.len() implies !#[trigger] blank_at(y, i) by {
        if i + 4 <= x.len() {
            assert(y[i] == x[i] && y[i + 1] == x[i + 1] && y[i + 2] == x[i + 2] && y[i + 3] == x[i + 3]);
            assert(!blank_at(x, i));
        } else if i == x.len() - 3 {
            assert(y[i + 1] == x[x.len() - 2]);
        } else if i == x.len() - 2 {
            assert(y[i + 2] == l[0]);
        } else if i == x.len() - 1 {
            assert(y[i] == x[x.len() - 1]);
        } else {
            assert(x.len() <= i < x.len() + l.len());
            assert(y[i] == l[i - x.len()]);
        }
    }
}

/// Adding the extra header lines keeps the head free of blank lines.
proof fn lemma_add_extras(x: Seq<char>, e: Seq<(Seq<char>, Seq<char>)>)
    requires
        ends_crlf(x),
        no_blank_line(x),
        forall|i: int| 0 <= i < e.len() ==> lacks(#[trigger] e[i].0, '\r') && lacks(e[i].1, '\r'),
    ensures
        ends_crlf(x + extra_header_lines(e)),
        no_blank_line(x + extra_header_lines(e)),
    decreases e.len(),
{
    reveal_strlit(": ");
    reveal_strlit("\r\n");
    if e.len() == 0 {
        assert(x + extra_header_lines(e) =~= x);
    } else {
        let init = e.drop_last();
        assert forall|i: int| 0 <= i < init.len() implies lacks(#[trigger] init[i].0, '\r') && lacks(
            init[i].1,
            '\r',
        ) by {
            assert(init[i] == e[i]);
        }
        lemma_add_extras(x, init);
        let y = x + extra_header_lines(init);
        let k = e.last().0;
        let v = e.last().1;
        assert(e.last() == e[e.len() - 1]);
        let l = k + ": "@ + v;
        assert(x + extra_header_lines(e) =~= y + l + crlf());
        assert(lacks(": "@, '\r'));
        lemma_lacks_concat(k, ": "@, '\r');
        lemma_lacks_concat(k + ": "@, v, '\r');
        lemma_add_line(y, l);
    }
}

/// The reason phrases hold no line breaks and no spaces at their start.
proof fn lemma_reason_phrase(status: u16)
    ensures
        lacks(reason_phrase(status), '\r'),
        lacks(reason_phrase(status), '\n'),
{
    reveal_strlit("OK");
    reveal_strlit("See Other");
    reveal_strlit("Bad Request");
    reveal_strlit("Unauthorized");
    reveal_strlit("Not Found");
    reveal_strlit("Internal Server Error");
}

/// A response that `http` frames reads back through `parse_http_response`
/// as its status and body, when the body is UTF-8 and neither the content
/// type nor any extra header holds a carriage return.
#[verifier::spinoff_prover]
#[verifier::rlimit(60)]
pub proof fn law_response_parses_back(
    status: u16,
    content_type: Seq<char>,
    body: Seq<u8>,
    extra: Seq<(Seq<char>, Seq<char>)>,
)
    requires
        valid_utf8(body),
        lacks(content_type, '\r'),
        forall|i: int| 0 <= i < extra.len() ==> lacks(#[trigger] extra[i].0, '\r') && lacks(extra[i].1, '\r'),
    ensures
        parse_response(response_bytes(status, content_type, body, extra)) == Ok::<(u16, Seq<char>), Seq<char>>(
            (status, decode_utf8(body)),
        ),
{
    reveal_strlit("HTTP/1.1 ");
    reveal_strlit("HTTP/1.1");
    reveal_strlit(" ");
    reveal_strlit("\r\nContent-Type: ");
    reveal_strlit("Content-Type: ");
    reveal_strlit("\r\nContent-Length: ");
    reveal_strlit("Content-Length: ");
    reveal_strlit("\r\nConnection: close\r\n");
    reveal_strlit("Connection: close");
    reveal_strlit("\r\n");
    let d = decode_utf8(body);
    let dec = decimal(status as nat);
    let version = "HTTP/1.1"@;
    let reason = reason_phrase(status);
    lemma_decimal_digits(status as nat);
    lemma_reason_phrase(status);
    assert(lacks(dec, '\r') && lacks(dec, '\n') && lacks(dec, ' ')) by {
        assert forall|i: int| 0 <= i < dec.len() implies #[trigger] dec[i] != '\r' && dec[i] != '\n'
            && dec[i] != ' ' by {
            assert(is_digit(dec[i]));
        }
    }
    let l0 = version + one(' ') + (dec + one(' ') + reason);
    let l1 = "Content-Type: "@ + content_type;
    let l2 = "Content-Length: "@ + decimal(body.len());
    let l3 = "Connection: close"@;
    assert(lacks(version, '\r') && lacks(version, '\n') && lacks(version, ' '));
    assert(lacks(one(' '), '\r') && lacks(one(' '), '\n'));
    lemma_lacks_concat(dec, one(' '), '\r');
    lemma_lacks_concat(dec + one(' '), reason, '\r');
    lemma_lacks_concat(version, one(' '), '\r');
    lemma_lacks_concat(version + one(' '), dec + one(' ') + reason, '\r');
    lemma_lacks_concat(dec, one(' '), '\n');
    lemma_lacks_concat(dec + one(' '), reason, '\n');
    lemma_lacks_concat(version, one(' '), '\n');
    lemma_lacks_concat(version + one(' '), dec + one(' ') + reason, '\n');
    lemma_decimal_digits(body.len());
    assert(lacks(decimal(body.len()), '\r')) by {
        assert forall|i: int| 0 <= i < decimal(body.len()).len() implies #[trigger] decimal(
            body.len(),
        )[i] != '\r' by {
            assert(is_digit(decimal(body.len())[i]));
        }
    }
    assert(lacks("Content-Type: "@, '\r'));
    assert(lacks("Content-Length: "@, '\r'));
    assert(lacks(l3, '\r'));
    lemma_lacks_concat("Content-Type: "@, content_type, '\r');
    lemma_lacks_concat("Content-Length: "@, decimal(body.len()), '\r');
    let x0 = Seq::<char>::empty();
    assert(no_blank_line(x0));
    lemma_add_line(x0, l0);
    let x1 = x0 + l0 + crlf();
    lemma_add_line(x1, l1);
    let x2 = x1 + l1 + crlf();
    lemma_add_line(x2, l2);
    let x3 = x2 + l2 + crlf();
    lemma_add_line(x3, l3);
    let x4 = x3 + l3 + crlf();
    lemma_add_extras(x4, extra);
    let p = x4 + extra_header_lines(extra);
    let h = p + crlf();
    assert(response_head(status, content_type, body.len(), extra) =~= h);
    assert(encode_utf8(d) == body);
    crate::request::lemma_encode_utf8_concat(h, d);
    let text = h + d;
    assert(response_bytes(status, content_type, body, extra) == encode_utf8(text));
    assert(valid_utf8(encode_utf8(text)));
    assert(decode_utf8(encode_utf8(text)) == text);
    // The first blank line ends the head.
    let k = p.len() - 2;
    assert(text =~= p + (crlf() + d));
    assert(p.len() >= x1.len() + 2);
    lemma_find(text, crate::request::head_separator());
    assert(text.subrange(k, k + 4) =~= crate::request::head_separator());
    assert(match_at(text, crate::request::head_separator(), k));
    match find(text, crate::request::head_separator()) {
        Some(j) => {
            if j < k {
                let w = text.subrange(j, j + 4);
                assert(w[0] == '\r' && w[1] == '\n' && w[2] == '\r' && w[3] == '\n');
                assert(text[j] == w[0] && text[j + 1] == w[1] && text[j + 2] == w[2] && text[j + 3] == w[3]);
                if j + 4 <= p.len() {
                    assert(text[j] == p[j] && text[j + 1] == p[j + 1] && text[j + 2] == p[j + 2]
                        && text[j + 3] == p[j + 3]);
                    assert(!blank_at(p, j));
                } else {
                    assert(j == k - 1);
                    assert(text[j + 1] == p[p.len() - 2]);
                }
            }
            assert(j == k);
        },
        None => {},
    }
    let head = text.take(k);
    assert(text.skip(k + 4) =~= d);
    // The first line of the head is the status line.
    let n0 = l0.len() as int;
    assert(text =~= x1 + (l1 + crlf() + l2 + crlf() + l3 + crlf() + extra_header_lines(extra) + crlf() + d));
    assert(head.len() > n0 + 1);
    assert(head[n0] == '\r' && head[n0 + 1] == '\n');
    assert forall|j: int| 0 <= j < n0 implies #[trigger] head[j] == l0[j] by {}
    lemma_find(head, one('\n'));
    assert(head.subrange(n0 + 1, n0 + 2) =~= one('\n'));
    assert(match_at(head, one('\n'), n0 + 1));
    match find(head, one('\n')) {
        Some(j) => {
            if j < n0 + 1 {
                assert(head.subrange(j, j + 1)[0] == '\n');
                assert(head[j] == '\n');
                if j < n0 {
                    assert(head[j] == l0[j]);
                }
            }
            assert(j == n0 + 1);
        },
        None => {},
    }
    assert(head.take(n0 + 1).drop_last() =~= l0);
    assert(first_line(head) == l0);
    // Its second piece is the status.
    crate::text::lemma_split_first(version, ' ', dec + one(' ') + reason);
    crate::text::lemma_split_first(dec, ' ', reason);
    assert(split(l0, one(' '))[1] == dec);
    crate::text::lemma_parse_decimal(status as nat, 65535);
    assert(status_of(l0) == Some(status as nat));
}

} // verus!
