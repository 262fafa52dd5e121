//! HTTP response builders and the small HTML helpers: each page is the
//! shared shell around a view's content, built by concatenation.

use crate::text::{bytes_of, chars_of, count, decimal, lacks, lemma_count_concat, lemma_count_lacks, lemma_match_shift, match_at, occurs, push_char, push_decimal, push_str};
use vstd::prelude::*;
use vstd::utf8::*;

verus! {

// ---------------------------------------------------------------------
// HTML escaping
// ---------------------------------------------------------------------

/// The HTML text for one character: `&<>"'` as entities, others as they are.
pub open spec fn escape_char(c: char) -> Seq<char> {
    if c == '&' {
        "&amp;"@
    } else if c == '<' {
        "&lt;"@
    } else if c == '>' {
        "&gt;"@
    } else if c == '"' {
        "&quot;"@
    } else if c == '\'' {
        "&#39;"@
    } else {
        seq![c]
    }
}

/// HTML-escaped text.
pub open spec fn escaped(s: Seq<char>) -> Seq<char>
    decreases s.len(),
{
    if s.len() == 0 {
        Seq::empty()
    } else {
        escaped(s.drop_last()) + escape_char(s.last())
    }
}

/// Escapes text for use in HTML content and attribute values.
pub fn escape(s: &str) -> (r: String)
    ensures
        r@ == escaped(s@),
{
    let v = chars_of(s);
    let mut out = String::new();
    let mut i: usize = 0;
    while i < v.len()
        invariant
            i <= v.len(),
            v@ == s@,
            out@ == escaped(v@.take(i as int)),
        decreases v.len() - i,
    {
        let c = v[i];
        if c == '&' {
            push_str(&mut out, "&amp;");
        } else if c == '<' {
            push_str(&mut out, "&lt;");
        } else if c == '>' {
            push_str(&mut out, "&gt;");
        } else if c == '"' {
            push_str(&mut out, "&quot;");
        } else if c == '\'' {
            push_str(&mut out, "&#39;");
        } else {
            push_char(&mut out, c);
        }
        assert(v@.take(i + 1).drop_last() =~= v@.take(i as int));
        i = i + 1;
    }
    assert(v@.take(v.len() as int) =~= v@);
    out
}

/// The characters that never appear in escaped text.
pub open spec fn markup_char(c: char) -> bool {
    c == '<' || c == '>' || c == '"' || c == '\''
}

/// Escaped text holds no `<`, `>`, `"` or `'`, so it can neither open a tag
/// nor leave an attribute value.
pub proof fn law_escaped_has_no_markup(s: Seq<char>)
    ensures
        forall|i: int| 0 <= i < escaped(s).len() ==> !markup_char(#[trigger] escaped(s)[i]),
    decreases s.len(),
{
    if s.len() > 0 {
        law_escaped_has_no_markup(s.drop_last());
        reveal_strlit("&amp;");
        reveal_strlit("&lt;");
        reveal_strlit("&gt;");
        reveal_strlit("&quot;");
        reveal_strlit("&#39;");
        let a = escaped(s.drop_last());
        let b = escape_char(s.last());
        assert forall|i: int| 0 <= i < (a + b).len() implies !markup_char(#[trigger] (a + b)[i]) by {
            if i < a.len() {
                assert((a + b)[i] == a[i]);
            } else {
                assert((a + b)[i] == b[i - a.len()]);
            }
        }
    }
}

/// Escaped text counts none of the markup characters.
pub proof fn lemma_count_escaped(s: Seq<char>, c: char)
    requires
        markup_char(c),
    ensures
        count(escaped(s), c) == 0,
{
    law_escaped_has_no_markup(s);
    assert(lacks(escaped(s), c)) by {
        assert forall|i: int| 0 <= i < escaped(s).len() implies #[trigger] escaped(s)[i] != c by {
            assert(!markup_char(escaped(s)[i]));
        }
    }
    lemma_count_lacks(escaped(s), c);
}

// ---------------------------------------------------------------------
// Page shell
// ---------------------------------------------------------------------

/// The shell up to the page title.
pub const SHELL_START: &'static str = "<!doctype html>\n<html lang=\"en\">\n<head>\n<meta charset=\"utf-8\">\n<meta name=\"viewport\" content=\"width=device-width,initial-scale=1\">\n<title>";

/// The shell between the page title and the content.
pub const SHELL_MIDDLE: &'static str = " · inbox</title>\n<link rel=\"stylesheet\" href=\"/static/style.css\">\n</head>\n<body>\n<header><a href=\"/\">inbox</a> · <a href=\"/compose\">compose</a></header>\n<main>";

/// The shell after the content.
pub const SHELL_END: &'static str = "</main>\n</body>\n</html>\n";

/// `t` occurs in the page that wraps `content` in the shell, when it occurs
/// in `content`.
pub proof fn lemma_in_page(title: Seq<char>, content: Seq<char>, t: Seq<char>)
    requires
        occurs(content, t),
    ensures
        occurs(shell_text(title, content), t),
{
    let i = choose|i: int| match_at(content, t, i);
    let a = SHELL_START@ + escaped(title) + SHELL_MIDDLE@;
    let b = SHELL_END@;
    lemma_match_shift(a, content, b, t, i);
    assert(shell_text(title, content) == a + content + b);
}

/// A full page: header, navigation, the content, footer.
pub open spec fn shell_text(title: Seq<char>, content: Seq<char>) -> Seq<char> {
    SHELL_START@ + escaped(title) + SHELL_MIDDLE@ + content + SHELL_END@
}

/// Page shell: every view wraps its content in it so the chrome stays the
/// same. The title is escaped, the content is taken as HTML.
pub fn shell(title: &str, content: &str) -> (r: String)
    ensures
        r@ == shell_text(title@, content@),
{
    let mut out = String::new();
    push_str(&mut out, SHELL_START);
    let t = escape(title);
    push_str(&mut out, t.as_str());
    push_str(&mut out, SHELL_MIDDLE);
    push_str(&mut out, content);
    push_str(&mut out, SHELL_END);
    out
}

// ---------------------------------------------------------------------
// Responses
// ---------------------------------------------------------------------

/// The reason phrase sent with a status code.
pub open spec fn reason_phrase(status: u16) -> Seq<char> {
    if status == 200 {
        "OK"@
    } else if status == 303 {
        "See Other"@
    } else if status == 400 {
        "Bad Request"@
    } else if status == 401 {
        "Unauthorized"@
    } else if status == 404 {
        "Not Found"@
    } else if status == 500 {
        "Internal Server Error"@
    } else {
        "OK"@
    }
}

/// The header lines `name: value\r\n` for extra headers.
pub open spec fn extra_header_lines(extra: Seq<(Seq<char>, Seq<char>)>) -> Seq<char>
    decreases extra.len(),
{
    if extra.len() == 0 {
        Seq::empty()
    } else {
        extra_header_lines(extra.drop_last()) + extra.last().0 + ": "@ + extra.last().1 + "\r\n"@
    }
}

/// The head of a response: status line, content headers, extra headers,
/// blank line.
pub open spec fn response_head(
    status: u16,
    content_type: Seq<char>,
    body_len: nat,
    extra: Seq<(Seq<char>, Seq<char>)>,
) -> Seq<char> {
    "HTTP/1.1 "@ + decimal(status as nat) + " "@ + reason_phrase(status) + "\r\nContent-Type: "@
        + content_type + "\r\nContent-Length: "@ + decimal(body_len) + "\r\nConnection: close\r\n"@
        + extra_header_lines(extra) + "\r\n"@
}

/// The bytes of a response: the UTF-8 head, then the body.
pub open spec fn response_bytes(
    status: u16,
    content_type: Seq<char>,
    body: Seq<u8>,
    extra: Seq<(Seq<char>, Seq<char>)>,
) -> Seq<u8> {
    encode_utf8(response_head(status, content_type, body.len(), extra)) + body
}

/// The extra headers of a call, as sequences.
pub open spec fn header_pairs(extra: Seq<(&str, &str)>) -> Seq<(Seq<char>, Seq<char>)> {
    extra.map_values(|p: (&str, &str)| (p.0@, p.1@))
}

fn http(status: u16, content_type: &str, body: Vec<u8>, extra: &[(&str, &str)]) -> (r: Vec<u8>)
    ensures
        r@ == response_bytes(status, content_type@, body@, header_pairs(extra@)),
{
    let reason = if status == 200 {
        "OK"
    } else if status == 303 {
        "See Other"
    } else if status == 400 {
        "Bad Request"
    } else if status == 401 {
        "Unauthorized"
    } else if status == 404 {
        "Not Found"
    } else if status == 500 {
        "Internal Server Error"
    } else {
        "OK"
    };
    let mut head = String::new();
    push_str(&mut head, "HTTP/1.1 ");
    push_decimal(&mut head, status as u64);
    push_str(&mut head, " ");
    push_str(&mut head, reason);
    push_str(&mut head, "\r\nContent-Type: ");
    push_str(&mut head, content_type);
    push_str(&mut head, "\r\nContent-Length: ");
    push_decimal(&mut head, body.len() as u64);
    push_str(&mut head, "\r\nConnection: close\r\n");
    let ghost pairs = header_pairs(extra@);
    let ghost before = head@;
    let mut i: usize = 0;
    assert(pairs.take(0) =~= Seq::<(Seq<char>, Seq<char>)>::empty());
    while i < extra.len()
        invariant
            i <= extra.len(),
            pairs == header_pairs(extra@),
            head@ == before + extra_header_lines(pairs.take(i as int)),
        decreases extra.len() - i,
    {
        let (k, v) = extra[i];
        push_str(&mut head, k);
        push_str(&mut head, ": ");
        push_str(&mut head, v);
        push_str(&mut head, "\r\n");
        assert(pairs.take(i + 1).drop_last() =~= pairs.take(i as int));
        assert(pairs.take(i + 1).last() == (k@, v@));
        i = i + 1;
    }
    assert(pairs.take(extra.len() as int) =~= pairs);
    push_str(&mut head, "\r\n");
    let mut out = bytes_of(head.as_str());
    let mut body = body;
    let ghost body_view = body@;
    out.append(&mut body);
    assert(head@ =~= response_head(status, content_type@, body_view.len(), pairs));
    out
}

/// The content type of HTML pages.
pub open spec fn html_type() -> Seq<char> {
    "text/html; charset=utf-8"@
}

/// The `200 OK` response carrying an HTML page.
pub open spec fn html_response(page: Seq<char>) -> Seq<u8> {
    response_bytes(200, html_type(), encode_utf8(page), Seq::empty())
}

/// The error response with a status and a message.
pub open spec fn error_response(status: u16, msg: Seq<char>) -> Seq<u8> {
    response_bytes(
        status,
        html_type(),
        encode_utf8(shell_text("error"@, error_content(msg))),
        Seq::empty(),
    )
}

/// A `200 OK` response carrying an HTML page.
pub fn ok_html(body: String) -> (r: Vec<u8>)
    ensures
        r@ == html_response(body@),
{
    let bytes = bytes_of(body.as_str());
    let r = http(200, "text/html; charset=utf-8", bytes, &[]);
    assert(header_pairs(Seq::<(&str, &str)>::empty()) =~= Seq::empty());
    r
}

/// A `200 OK` response carrying a stylesheet.
pub fn css(body: &'static str) -> (r: Vec<u8>)
    ensures
        r@ == response_bytes(200, "text/css; charset=utf-8"@, encode_utf8(body@), Seq::empty()),
{
    let bytes = bytes_of(body);
    let r = http(200, "text/css; charset=utf-8", bytes, &[]);
    assert(header_pairs(Seq::<(&str, &str)>::empty()) =~= Seq::empty());
    r
}

/// A `200 OK` response carrying an SVG image.
pub fn svg(body: &'static str) -> (r: Vec<u8>)
    ensures
        r@ == response_bytes(200, "image/svg+xml"@, encode_utf8(body@), Seq::empty()),
{
    let bytes = bytes_of(body);
    let r = http(200, "image/svg+xml", bytes, &[]);
    assert(header_pairs(Seq::<(&str, &str)>::empty()) =~= Seq::empty());
    r
}

/// The page content of an error banner.
pub open spec fn error_content(msg: Seq<char>) -> Seq<char> {
    "<p class=\"err\">"@ + escaped(msg) + "</p>"@
}

/// An error page: the shell titled `error` around the escaped message.
pub fn error(status: u16, msg: &str) -> (r: Vec<u8>)
    ensures
        r@ == error_response(status, msg@),
{
    let mut content = String::new();
    push_str(&mut content, "<p class=\"err\">");
    let e = escape(msg);
    push_str(&mut content, e.as_str());
    push_str(&mut content, "</p>");
    let body = shell("error", content.as_str());
    let bytes = bytes_of(body.as_str());
    let r = http(status, "text/html; charset=utf-8", bytes, &[]);
    assert(header_pairs(Seq::<(&str, &str)>::empty()) =~= Seq::empty());
    r
}

/// A `303 See Other` response sending the browser to `location`.
pub fn redirect(location: &str) -> (r: Vec<u8>)
    ensures
        r@ == response_bytes(303, "text/plain"@, Seq::empty(), seq![("Location"@, location@)]),
{
    let extra = [("Location", location)];
    let r = http(303, "text/plain", Vec::new(), &extra);
    assert(header_pairs(extra@) =~= seq![("Location"@, location@)]);
    r
}

/// The page shown when credentials are missing or wrong.
pub open spec fn challenge_page() -> Seq<char> {
    shell_text("auth required"@, "<p>auth required</p>"@)
}

/// The header that asks the browser for Basic credentials.
pub open spec fn challenge_header() -> (Seq<char>, Seq<char>) {
    ("WWW-Authenticate"@, "Basic realm=\"inbox-ui\""@)
}

/// A `401 Unauthorized` response asking for Basic credentials.
pub fn basic_auth_challenge() -> (r: Vec<u8>)
    ensures
        r@ == response_bytes(401, html_type(), encode_utf8(challenge_page()), seq![challenge_header()]),
{
    let page = shell("auth required", "<p>auth required</p>");
    let bytes = bytes_of(page.as_str());
    let extra = [("WWW-Authenticate", "Basic realm=\"inbox-ui\"")];
    let r = http(401, "text/html; charset=utf-8", bytes, &extra);
    assert(header_pairs(extra@) =~= seq![challenge_header()]);
    r
}

/// The text of an error page never adds markup: for each of `<`, `>`, `"`
/// and `'`, every error page holds as many as any other, whatever its
/// message, so each one comes from the page's own template.
pub proof fn law_error_page_markup_is_the_template(msg: Seq<char>, other: Seq<char>, c: char)
    requires
        markup_char(c),
    ensures
        count(shell_text("error"@, error_content(msg)), c) == count(
            shell_text("error"@, error_content(other)),
            c,
        ),
{
    broadcast use lemma_count_concat;

    lemma_count_escaped(msg, c);
    lemma_count_escaped(other, c);
}

} // verus!
