use inbox_ui::request::{parse_form, url_decode, url_encode, hex_digit, FieldMap, Request};

fn parse(text: &str) -> Request {
    match Request::parse(text.as_bytes()) {
        Ok(r) => r,
        Err(e) => panic!("parse failed: {}", e),
    }
}

#[test]
fn parses_request_line_path_and_query() {
    let r = parse("GET /m/a%40b.com?from=x%2By&to=z HTTP/1.1\r\nHost: example\r\n\r\n");
    assert_eq!(r.method, "GET");
    assert_eq!(r.path, "/m/a@b.com");
    assert_eq!(r.query.get("from").map(|s| s.as_str()), Some("x+y"));
    assert_eq!(r.query.get("to").map(|s| s.as_str()), Some("z"));
    assert_eq!(r.query.get("missing"), None);
    assert_eq!(r.body, "");
}

#[test]
fn parses_headers_case_insensitively_and_trims() {
    let r = parse("POST /send HTTP/1.1\r\nContent-Type:  text/plain \r\nX-Thing: a:b\r\nnot a header\r\n\r\nhello");
    assert_eq!(r.header("content-type").map(|s| s.as_str()), Some("text/plain"));
    assert_eq!(r.header("CONTENT-TYPE").map(|s| s.as_str()), Some("text/plain"));
    assert_eq!(r.header("x-thing").map(|s| s.as_str()), Some("a:b"));
    assert_eq!(r.header("not a header"), None);
    assert_eq!(r.body, "hello");
}

#[test]
fn later_header_replaces_earlier() {
    let r = parse("GET / HTTP/1.1\r\nA: 1\r\na: 2\r\n\r\n");
    assert_eq!(r.header("A").map(|s| s.as_str()), Some("2"));
}

#[test]
fn missing_target_defaults_to_root() {
    let r = parse("GET\r\n\r\n");
    assert_eq!(r.method, "GET");
    assert_eq!(r.path, "/");
    let r = parse("\r\n\r\n");
    assert_eq!(r.method, "");
    assert_eq!(r.path, "/");
}

#[test]
fn rejects_non_utf8_and_missing_separator() {
    match Request::parse(&[0x47, 0xff, 0x0d, 0x0a, 0x0d, 0x0a]) {
        Err(e) => assert_eq!(e, "non-utf8 request"),
        Ok(_) => panic!("accepted invalid UTF-8"),
    }
    match Request::parse(b"GET / HTTP/1.1\r\nHost: x\r\n") {
        Err(e) => assert_eq!(e, "missing header/body separator"),
        Ok(_) => panic!("accepted a request without a blank line"),
    }
}

#[test]
fn form_body_decodes_fields() {
    let r = parse("POST /send HTTP/1.1\r\n\r\nfrom=me%40x.org&to=a%2C+b&&subject=hi+there&flag&to2=");
    let f = r.form();
    assert_eq!(f.get_or_empty("from"), "me@x.org");
    assert_eq!(f.get_or_empty("to"), "a, b");
    assert_eq!(f.get_or_empty("subject"), "hi there");
    assert_eq!(f.get("flag").map(|s| s.as_str()), Some(""));
    assert_eq!(f.get("to2").map(|s| s.as_str()), Some(""));
    assert_eq!(f.get_or_empty("nothing"), "");
}

#[test]
fn parse_form_later_key_wins() {
    let f = parse_form("a=1&b=2&a=3");
    assert_eq!(f.get_or_empty("a"), "3");
    assert_eq!(f.get_or_empty("b"), "2");
}

#[test]
fn url_decode_handles_plus_percent_and_bad_escapes() {
    assert_eq!(url_decode("a+b%20c"), "a b c");
    assert_eq!(url_decode("%41%62"), "Ab");
    assert_eq!(url_decode("%4"), "%4");
    assert_eq!(url_decode("%zz"), "%zz");
    assert_eq!(url_decode("100%"), "100%");
    assert_eq!(url_decode("%C3%A9"), "é");
    assert_eq!(url_decode("%FF"), "<invalid-utf8>");
}

#[test]
fn url_encode_keeps_unreserved_and_escapes_the_rest() {
    assert_eq!(url_encode("aZ09-_.~"), "aZ09-_.~");
    assert_eq!(url_encode("a b/c@d+e"), "a%20b%2Fc%40d%2Be");
    assert_eq!(url_encode("é"), "%C3%A9");
    assert_eq!(url_encode(""), "");
}

#[test]
fn url_encode_then_decode_gives_back_the_text() {
    for s in ["", "plain", "a b+c%d", "Re: héllo/wörld?&=", "日本語 ~"] {
        assert_eq!(url_decode(&url_encode(s)), s);
    }
}

#[test]
fn hex_digit_values() {
    assert_eq!(hex_digit(b'0'), Some(0));
    assert_eq!(hex_digit(b'9'), Some(9));
    assert_eq!(hex_digit(b'a'), Some(10));
    assert_eq!(hex_digit(b'F'), Some(15));
    assert_eq!(hex_digit(b'g'), None);
    assert_eq!(hex_digit(b'/'), None);
}

#[test]
fn field_map_insert_replaces() {
    let mut m = FieldMap::new();
    m.insert("k".to_string(), "v1".to_string());
    m.insert("j".to_string(), "w".to_string());
    m.insert("k".to_string(), "v2".to_string());
    assert_eq!(m.get_or_empty("k"), "v2");
    assert_eq!(m.get_or_empty("j"), "w");
    assert_eq!(m.get("x"), None);
}

#[test]
fn parse_form_decodes_encoded_fields() {
    let fields = [("a b", "1 & 2"), ("c=d", "%x"), ("a b", "later"), ("", "empty key")];
    let text = fields
        .iter()
        .map(|(k, v)| format!("{}={}", url_encode(k), url_encode(v)))
        .collect::<Vec<_>>()
        .join("&");
    let f = parse_form(&text);
    assert_eq!(f.get("a b"), Some(&"later".to_string()));
    assert_eq!(f.get("c=d"), Some(&"%x".to_string()));
    assert_eq!(f.get(""), Some(&"empty key".to_string()));
    assert_eq!(f.get("missing"), None);
    assert!(parse_form("").get("").is_none());
}
