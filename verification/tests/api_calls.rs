use inbox_ui::handler::HandlerState;
use inbox_ui::write_api::{api_get, api_post, parse_base_url, parse_http_response, receive_step, send_failed, send_mail, RecvStep};

fn state(url: &str) -> HandlerState {
    HandlerState {
        api_base_url: url.to_string(),
        api_bearer_token: "tok".to_string(),
        basic_auth_credential: "u:p".to_string(),
    }
}

#[test]
fn base_url_parts() {
    assert_eq!(parse_base_url("https://mail.colinrozzi.com:443"), Ok(("mail.colinrozzi.com".to_string(), 443, true)));
    assert_eq!(parse_base_url("http://localhost"), Ok(("localhost".to_string(), 80, false)));
    assert_eq!(parse_base_url("https://h/some/path"), Ok(("h".to_string(), 443, true)));
    assert_eq!(parse_base_url("http://h:8080/x"), Ok(("h".to_string(), 8080, false)));
    assert_eq!(parse_base_url("http://h:+81"), Ok(("h".to_string(), 81, false)));
    assert_eq!(parse_base_url("ftp://h"), Err("unsupported scheme ftp".to_string()));
    assert_eq!(parse_base_url("mail.example.com"), Err("api_base_url missing scheme: mail.example.com".to_string()));
    assert_eq!(parse_base_url("http://h:99999"), Err("bad port in http://h:99999".to_string()));
    assert_eq!(parse_base_url("http://h:"), Err("bad port in http://h:".to_string()));
}

#[test]
fn get_call_text() {
    let c = api_get(&state("https://mail.example.com"), "/v1/mailboxes").ok().unwrap();
    assert_eq!(c.host, "mail.example.com");
    assert_eq!(c.port, 443);
    assert_eq!(c.address(), "mail.example.com:443");
    assert_eq!(c.request, "GET /v1/mailboxes HTTP/1.1\r\nHost: mail.example.com\r\nAuthorization: Bearer tok\r\nConnection: close\r\n\r\n");
    assert_eq!(c.connect_failed("refused"), "tcp_connect mail.example.com:443: refused");
}

#[test]
fn post_call_text_counts_body_bytes() {
    let c = api_post(&state("http://h:9"), "/p", "{\"s\":\"é\"}").ok().unwrap();
    assert_eq!(c.request, "POST /p HTTP/1.1\r\nHost: h\r\nAuthorization: Bearer tok\r\nContent-Type: application/json\r\nContent-Length: 10\r\nConnection: close\r\n\r\n{\"s\":\"é\"}");
}

#[test]
fn send_mail_path_is_encoded() {
    let c = send_mail(&state("http://h"), "me@x.org", "{}").ok().unwrap();
    assert!(c.request.starts_with("POST /v1/mailboxes/me%40x.org/send HTTP/1.1\r\n"));
    assert!(c.request.ends_with("Content-Length: 2\r\nConnection: close\r\n\r\n{}"));
    assert_eq!(send_mail(&state("h"), "me", "{}").err(), Some("api_base_url missing scheme: h".to_string()));
    assert_eq!(send_failed("reset"), "send: reset");
}

#[test]
fn receive_steps() {
    let mut acc = Vec::new();
    assert!(matches!(receive_step(&mut acc, Err("x".to_string())), RecvStep::Fail(m) if m == "recv: x"));
    assert!(matches!(receive_step(&mut acc, Ok(b"ab".to_vec())), RecvStep::More));
    assert_eq!(acc, b"ab".to_vec());
    assert!(matches!(receive_step(&mut acc, Err("eof".to_string())), RecvStep::End));
    assert!(matches!(receive_step(&mut acc, Ok(Vec::new())), RecvStep::End));
    assert!(matches!(receive_step(&mut acc, Ok(vec![0u8; 65534])), RecvStep::End));
    assert_eq!(acc.len(), 65536);
}

#[test]
fn parses_api_responses() {
    let r = parse_http_response(b"HTTP/1.1 200 OK\r\nContent-Type: application/json\r\n\r\n{\"a\":1}").ok().unwrap();
    assert_eq!(r.status, 200);
    assert_eq!(r.body, "{\"a\":1}");
    let r = parse_http_response(b"HTTP/1.1 404\n\r\n\r\n").ok().unwrap();
    assert_eq!(r.status, 404);
    assert_eq!(r.body, "");
    assert_eq!(parse_http_response(b"HTTP/1.1 abc\r\n\r\n").err(), Some("can't parse status from \"HTTP/1.1 abc\"".to_string()));
    assert_eq!(parse_http_response(b"HTTP/1.1\r\n\r\n").err(), Some("can't parse status from \"HTTP/1.1\"".to_string()));
    assert_eq!(parse_http_response(b"HTTP/1.1 200 OK\r\n").err(), Some("malformed api response".to_string()));
    assert_eq!(parse_http_response(&[0xff]).err(), Some("non-utf8 api response".to_string()));
}

#[test]
fn framed_responses_parse_back() {
    let r = parse_http_response(&inbox_ui::render::redirect("/m/a%40x")).ok().unwrap();
    assert_eq!(r.status, 303);
    assert_eq!(r.body, "");
    let r = parse_http_response(&inbox_ui::render::error(404, "gone\r\n\r\nstill body")).ok().unwrap();
    assert_eq!(r.status, 404);
    assert!(r.body.starts_with("<!doctype html>"));
    assert!(r.body.contains("gone\r\n\r\nstill body"));
    let r = parse_http_response(&inbox_ui::render::ok_html("héllo".to_string())).ok().unwrap();
    assert_eq!(r.status, 200);
    assert_eq!(r.body, "héllo");
}
