use inbox_ui::render::{basic_auth_challenge, css, error, escape, ok_html, redirect, shell};

fn text(b: Vec<u8>) -> String {
    String::from_utf8(b).unwrap()
}

const SHELL_START: &str = "<!doctype html>\n<html lang=\"en\">\n<head>\n<meta charset=\"utf-8\">\n<meta name=\"viewport\" content=\"width=device-width,initial-scale=1\">\n<title>";
const SHELL_MIDDLE: &str = " · inbox</title>\n<link rel=\"stylesheet\" href=\"/static/style.css\">\n</head>\n<body>\n<header><a href=\"/\">inbox</a> · <a href=\"/compose\">compose</a></header>\n<main>";
const SHELL_END: &str = "</main>\n</body>\n</html>\n";

#[test]
fn escape_replaces_markup_characters() {
    assert_eq!(escape("<a href='x'>&\"</a>"), "&lt;a href=&#39;x&#39;&gt;&amp;&quot;&lt;/a&gt;");
    assert_eq!(escape("plain é"), "plain é");
    assert_eq!(escape(""), "");
}

#[test]
fn escaped_text_has_no_markup() {
    let e = escape("<script>alert('x' + \"y\")</script>");
    assert!(!e.contains('<') && !e.contains('>') && !e.contains('"') && !e.contains('\''));
}

#[test]
fn shell_wraps_content_and_escapes_title() {
    let page = shell("a<b", "<p>hi</p>");
    assert_eq!(page, format!("{}a&lt;b{}<p>hi</p>{}", SHELL_START, SHELL_MIDDLE, SHELL_END));
}

#[test]
fn redirect_is_303_with_location() {
    assert_eq!(
        text(redirect("/m/x")),
        "HTTP/1.1 303 See Other\r\nContent-Type: text/plain\r\nContent-Length: 0\r\nConnection: close\r\nLocation: /m/x\r\n\r\n"
    );
}

#[test]
fn ok_html_counts_body_bytes() {
    assert_eq!(
        text(ok_html("é<".to_string())),
        "HTTP/1.1 200 OK\r\nContent-Type: text/html; charset=utf-8\r\nContent-Length: 3\r\nConnection: close\r\n\r\né<"
    );
}

#[test]
fn css_response() {
    assert_eq!(
        text(css("a{}")),
        "HTTP/1.1 200 OK\r\nContent-Type: text/css; charset=utf-8\r\nContent-Length: 3\r\nConnection: close\r\n\r\na{}"
    );
}

#[test]
fn error_pages_and_reason_phrases() {
    let body = shell("error", "<p class=\"err\">no &amp; &lt;way&gt;</p>");
    let expected = format!(
        "HTTP/1.1 404 Not Found\r\nContent-Type: text/html; charset=utf-8\r\nContent-Length: {}\r\nConnection: close\r\n\r\n{}",
        body.len(),
        body
    );
    assert_eq!(text(error(404, "no & <way>")), expected);
    assert!(text(error(400, "x")).starts_with("HTTP/1.1 400 Bad Request\r\n"));
    assert!(text(error(500, "x")).starts_with("HTTP/1.1 500 Internal Server Error\r\n"));
    assert!(text(error(502, "x")).starts_with("HTTP/1.1 502 OK\r\n"));
}

#[test]
fn challenge_asks_for_basic_credentials() {
    let body = shell("auth required", "<p>auth required</p>");
    let expected = format!(
        "HTTP/1.1 401 Unauthorized\r\nContent-Type: text/html; charset=utf-8\r\nContent-Length: {}\r\nConnection: close\r\nWWW-Authenticate: Basic realm=\"inbox-ui\"\r\n\r\n{}",
        body.len(),
        body
    );
    assert_eq!(text(basic_auth_challenge()), expected);
}
