use inbox_ui::handler::{dispatch, init_api_base_url, label_ref, label_text, Dispatch, HandlerState};
use inbox_ui::render::{basic_auth_challenge, css, error, svg};
use inbox_ui::api_reads::{InboxMessage, MailboxSummary, MessageFull, Preview};
use inbox_ui::request::{url_encode, Request};
use inbox_ui::views::{compose, inbox, mailbox_list, message, FAVICON_SVG, STYLE_CSS};

fn state() -> HandlerState {
    HandlerState {
        api_base_url: "https://mail.example.com:443".to_string(),
        api_bearer_token: "tok".to_string(),
        basic_auth_credential: "user:pass".to_string(),
    }
}

const AUTH: &str = "Authorization: Basic dXNlcjpwYXNz\r\n";

fn go(method: &str, target: &str, auth: bool, body: &str) -> Dispatch {
    let text = format!(
        "{} {} HTTP/1.1\r\nHost: x\r\n{}\r\n{}",
        method,
        target,
        if auth { AUTH } else { "" },
        body
    );
    dispatch(text.as_bytes(), &state())
}

fn respond(d: Dispatch) -> Vec<u8> {
    match d {
        Dispatch::Respond(b) => b,
        _ => panic!("expected a response"),
    }
}

#[test]
fn stylesheet_needs_no_credentials() {
    assert_eq!(respond(go("GET", "/static/style.css", false, "")), css(STYLE_CSS));
}

#[test]
fn favicon_needs_credentials() {
    assert_eq!(respond(go("GET", "/static/favicon.svg", false, "")), basic_auth_challenge());
    let r = respond(go("GET", "/static/favicon.svg", true, ""));
    assert_eq!(r, svg(FAVICON_SVG));
    assert!(String::from_utf8(r).unwrap().starts_with("HTTP/1.1 200 OK\r\nContent-Type: image/svg+xml\r\n"));
    assert_eq!(respond(go("POST", "/static/favicon.svg", true, "")), error(404, "not found"));
}

#[test]
fn other_routes_need_credentials() {
    for (m, t) in [("GET", "/static/favicon.svg"), ("GET", "/"), ("GET", "/m/a"), ("GET", "/m/a/1"), ("GET", "/compose"), ("POST", "/send"), ("GET", "/nope")] {
        assert_eq!(respond(go(m, t, false, "")), basic_auth_challenge());
    }
}

#[test]
fn bad_request_bytes_get_400() {
    assert_eq!(respond(dispatch(b"GET / HTTP/1.1\r\n", &state())), error(400, "bad request: missing header/body separator"));
    assert_eq!(respond(dispatch(&[0xff, 0x0d, 0x0a, 0x0d, 0x0a], &state())), error(400, "bad request: non-utf8 request"));
}

#[test]
fn routes_reads() {
    assert!(matches!(go("GET", "/", true, ""), Dispatch::ListMailboxes));
    match go("GET", "/m/a%40b.com", true, "") {
        Dispatch::ListInbox { addr } => assert_eq!(addr, "a@b.com"),
        _ => panic!("expected an inbox read"),
    }
    match go("GET", "/m/a%40b.com/42", true, "") {
        Dispatch::ShowMessage { addr, id } => {
            assert_eq!(addr, "a@b.com");
            assert_eq!(id, "42");
        },
        _ => panic!("expected a message read"),
    }
    match go("GET", "/m/", true, "") {
        Dispatch::ListInbox { addr } => assert_eq!(addr, ""),
        _ => panic!("expected an inbox read"),
    }
}

#[test]
fn unknown_routes_get_404() {
    assert_eq!(respond(go("GET", "/m/a/b/c", true, "")), error(404, "not found"));
    assert_eq!(respond(go("POST", "/m/a", true, "")), error(404, "not found"));
    assert_eq!(respond(go("GET", "/elsewhere", true, "")), error(404, "not found"));
    assert_eq!(respond(go("GET", "/send", true, "")), error(404, "not found"));
}

#[test]
fn compose_form_is_prefilled() {
    let page = String::from_utf8(respond(go("GET", "/compose?from=me%40x.org&subject=%3Chi%3E", true, ""))).unwrap();
    assert!(page.starts_with("HTTP/1.1 200 OK\r\n"));
    assert!(page.contains("<input name=\"from\" value=\"me@x.org\" required>"));
    assert!(page.contains("<input name=\"subject\" value=\"&lt;hi&gt;\">"));
    assert!(page.contains("<textarea name=\"body\" rows=\"15\"></textarea>"));
}

#[test]
fn send_builds_the_mail() {
    match go("POST", "/send", true, "from=me%40x.org&to=a%40x.org%2C+%2C+b%40x.org&cc=&subject=Hi&body=Hello+there") {
        Dispatch::Send { from, mail } => {
            assert_eq!(from, "me@x.org");
            assert_eq!(mail.to, vec!["a@x.org".to_string(), "b@x.org".to_string()]);
            assert!(mail.cc.is_empty());
            assert_eq!(mail.subject, "Hi");
            assert_eq!(mail.body, "Hello there");
        },
        _ => panic!("expected a send"),
    }
}

#[test]
fn send_requires_from_and_to() {
    assert_eq!(respond(go("POST", "/send", true, "from=me&subject=x")), error(400, "from and to are required"));
    assert_eq!(respond(go("POST", "/send", true, "to=you")), error(400, "from and to are required"));
}

#[test]
fn handler_start_up_decisions() {
    assert_eq!(init_api_base_url(Some("https://h".to_string())), Ok("https://h".to_string()));
    assert_eq!(init_api_base_url(None), Err("ui-handler init: expected init_state = string (api base url)".to_string()));
    assert_eq!(label_ref("lbl", Ok(Some("ref1".to_string()))), Ok("ref1".to_string()));
    assert_eq!(label_ref("lbl", Ok(None)), Err("lbl label not set (acceptor should have written it)".to_string()));
    assert_eq!(label_ref("lbl", Err("boom".to_string())), Err("lbl lookup failed: boom".to_string()));
    assert_eq!(label_text("lbl", Ok(b"secret".to_vec())), Ok("secret".to_string()));
    assert_eq!(label_text("lbl", Ok(vec![0xc3])), Err("lbl is not valid UTF-8".to_string()));
    assert_eq!(label_text("lbl", Err("gone".to_string())), Err("lbl get failed: gone".to_string()));
}

#[test]
fn page_links_open_their_targets() {
    let listing = String::from_utf8(mailbox_list::render(Ok(vec![MailboxSummary { address: "a b@x.org".to_string(), preview: Preview::Empty }]))).unwrap();
    assert!(listing.contains("<a href=\"/m/a%20b%40x.org\">a b@x.org</a> <span class=\"preview empty\">no messages</span>"));
    match go("GET", "/m/a%20b%40x.org", true, "") {
        Dispatch::ListInbox { addr } => assert_eq!(addr, "a b@x.org"),
        _ => panic!("expected an inbox read"),
    }
    let row = InboxMessage { id: "42".to_string(), from: "f@y.org".to_string(), subject: "s".to_string(), received_at: 7 };
    let page = String::from_utf8(inbox::render("a b@x.org", Ok(vec![row]))).unwrap();
    assert!(page.contains("<a href=\"/m/a%20b%40x.org/42\">"));
    assert!(page.contains("<a href=\"/compose?from=a%20b%40x.org\">compose from this address</a>"));
    match go("GET", "/m/a%20b%40x.org/42", true, "") {
        Dispatch::ShowMessage { addr, id } => {
            assert_eq!(addr, "a b@x.org");
            assert_eq!(id, "42");
        },
        _ => panic!("expected a message read"),
    }
    let form = String::from_utf8(respond(go("GET", "/compose?from=a%20b%40x.org", true, ""))).unwrap();
    assert!(form.contains("<input name=\"from\" value=\"a b@x.org\" required>"));
}

#[test]
fn reply_link_request_prefills_compose() {
    let m = MessageFull {
        id: "7".to_string(),
        from: "f <f@y.org>".to_string(),
        to: "me@x.org".to_string(),
        subject: "hi & \"bye\"".to_string(),
        body: "b".to_string(),
        received_at: 1,
    };
    let page = String::from_utf8(message::render("me@x.org", "7", Ok(m))).unwrap();
    let link = format!(
        "/compose?from={}&to={}&subject={}",
        url_encode("me@x.org"),
        url_encode("f <f@y.org>"),
        url_encode("Re: hi & \"bye\"")
    );
    assert!(page.contains(&format!("<a href=\"{}\">reply</a>", link)));
    let req = match Request::parse(format!("GET {} HTTP/1.1\r\n\r\n", link).as_bytes()) {
        Ok(r) => r,
        Err(e) => panic!("parse failed: {}", e),
    };
    let form = String::from_utf8(compose::render(&req)).unwrap();
    assert!(form.contains("<input name=\"from\" value=\"me@x.org\" required>"));
    assert!(form.contains("<input name=\"to\"   value=\"f &lt;f@y.org&gt;\" required>"));
    assert!(form.contains("<input name=\"subject\" value=\"Re: hi &amp; &quot;bye&quot;\">"));
}

#[test]
fn inbox_data_adds_no_markup() {
    let row = |from: &str, subject: &str| InboxMessage { id: "1".to_string(), from: from.to_string(), subject: subject.to_string(), received_at: 0 };
    let plain = String::from_utf8(inbox::render("a@x", Ok(vec![row("f", "s")]))).unwrap();
    let hostile = String::from_utf8(inbox::render("<b>\"'", Ok(vec![row("<script>alert('x')</script>", "\"><img>")]))).unwrap();
    for c in ['<', '>', '"', '\''] {
        assert_eq!(plain.matches(c).count(), hostile.matches(c).count());
    }
    assert!(!hostile.contains("<script"));
}
