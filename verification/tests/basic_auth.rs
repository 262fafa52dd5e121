use inbox_ui::auth::{basic_credentials, check, check_decoded, constant_time_eq};
use inbox_ui::request::Request;

fn request_with(header: Option<&str>) -> Request {
    let text = match header {
        Some(h) => format!("GET / HTTP/1.1\r\nAuthorization: {}\r\n\r\n", h),
        None => "GET / HTTP/1.1\r\nHost: x\r\n\r\n".to_string(),
    };
    Request::parse(text.as_bytes()).ok().unwrap()
}

#[test]
fn accepts_the_expected_credentials() {
    // "dXNlcjpwYXNz" is the base64 of "user:pass".
    assert!(check(&request_with(Some("Basic dXNlcjpwYXNz")), "user:pass"));
    assert!(check(&request_with(Some("Basic   dXNlcjpwYXNz  ")), "user:pass"));
}

#[test]
fn refuses_wrong_or_missing_credentials() {
    assert!(!check(&request_with(Some("Basic dXNlcjpwYXNz")), "user:other"));
    assert!(!check(&request_with(Some("Basic dXNlcjpwYXNz")), "user:pas"));
    assert!(!check(&request_with(Some("basic dXNlcjpwYXNz")), "user:pass"));
    assert!(!check(&request_with(Some("Bearer dXNlcjpwYXNz")), "user:pass"));
    assert!(!check(&request_with(Some("Basic not base64!")), "user:pass"));
    assert!(!check(&request_with(None), "user:pass"));
    // "dXNlcjpwYXNz" with the raw credential instead of base64
    assert!(!check(&request_with(Some("Basic user:pass")), "user:pass"));
}

#[test]
fn token_is_the_trimmed_text_after_the_scheme() {
    assert_eq!(basic_credentials(&request_with(Some("Basic  abc "))), Some(b"abc".to_vec()));
    assert_eq!(basic_credentials(&request_with(Some("Basi"))), None);
    assert_eq!(basic_credentials(&request_with(None)), None);
}

#[test]
fn decoded_credentials_must_be_utf8_and_equal() {
    assert!(check_decoded(b"user:pass".to_vec(), "user:pass"));
    assert!(!check_decoded(vec![0xff, 0xfe], "user:pass"));
    assert!(!check_decoded(b"user:pass ".to_vec(), "user:pass"));
}

#[test]
fn constant_time_eq_is_equality() {
    assert!(constant_time_eq(b"abc", b"abc"));
    assert!(constant_time_eq(b"", b""));
    assert!(!constant_time_eq(b"abc", b"abd"));
    assert!(!constant_time_eq(b"abc", b"ab"));
}

#[test]
fn base64_must_be_canonical() {
    // "YQ==" is "a", "YWI=" is "ab", "dXNlYQ==" is "usea".
    assert!(check(&request_with(Some("Basic YQ==")), "a"));
    assert!(check(&request_with(Some("Basic YWI=")), "ab"));
    assert!(check(&request_with(Some("Basic dXNlYQ==")), "usea"));
    // Unused bits set, padding missing or misplaced, or a padded quad before the last.
    assert!(!check(&request_with(Some("Basic YR==")), "a"));
    assert!(!check(&request_with(Some("Basic YWJ=")), "ab"));
    assert!(!check(&request_with(Some("Basic YQ")), "a"));
    assert!(!check(&request_with(Some("Basic YQ=")), "a"));
    assert!(!check(&request_with(Some("Basic Y===")), "a"));
    assert!(!check(&request_with(Some("Basic YQ==YQ==")), "aa"));
    assert!(!check(&request_with(Some("Basic YQ=a")), "a"));
}
