//! HTTP Basic authentication against the single shared credential
//! `user:password` that the acceptor persisted at start-up.

use crate::request::{Request, RequestModel};
use crate::text::{bytes_of, chars_of, lower, string_from_utf8, trim, trim_exec};
use vstd::prelude::*;
use vstd::utf8::*;

verus! {

broadcast use vstd::utf8::group_utf8_lib;

/// The error type of the base64 decoder.
#[verifier::external_type_specification]
#[verifier::external_body]
pub struct ExDecodeError(base64::DecodeError);

/// The value of a symbol of the standard base64 alphabet
/// `A-Z a-z 0-9 + /`; `None` for any other byte, `=` included.
pub open spec fn base64_value(b: u8) -> Option<nat> {
    if 65 <= b <= 90 {
        Some((b - 65) as nat)
    } else if 97 <= b <= 122 {
        Some((b - 97 + 26) as nat)
    } else if 48 <= b <= 57 {
        Some((b - 48 + 52) as nat)
    } else if b == 43 {
        Some(62)
    } else if b == 47 {
        Some(63)
    } else {
        None
    }
}

/// The three bytes of the 24 bits `n`, high byte first.
pub open spec fn base64_bytes(n: nat) -> Seq<u8> {
    seq![(n / 65536) as u8, ((n / 256) % 256) as u8, (n % 256) as u8]
}

/// A quad of four symbols: its three bytes.
pub open spec fn base64_full_quad(q: Seq<u8>) -> Option<Seq<u8>> {
    match (base64_value(q[0]), base64_value(q[1]), base64_value(q[2]), base64_value(q[3])) {
        (Some(a), Some(b), Some(c), Some(d)) => Some(base64_bytes(a * 262144 + b * 4096 + c * 64 + d)),
        _ => None,
    }
}

/// The last quad: four symbols; or three and `=` (two bytes, the unused
/// low 2 bits zero); or two and `==` (one byte, the unused low 4 bits zero).
pub open spec fn base64_last_quad(q: Seq<u8>) -> Option<Seq<u8>> {
    match (base64_value(q[0]), base64_value(q[1])) {
        (Some(a), Some(b)) => if q[2] == 61 && q[3] == 61 {
            if b % 16 == 0 {
                Some(base64_bytes(a * 262144 + b * 4096).take(1))
            } else {
                None
            }
        } else if q[3] == 61 {
            match base64_value(q[2]) {
                Some(c) => if c % 4 == 0 {
                    Some(base64_bytes(a * 262144 + b * 4096 + c * 64).take(2))
                } else {
                    None
                },
                None => None,
            }
        } else {
            base64_full_quad(q)
        },
        _ => None,
    }
}

/// What the standard base64 engine (RFC 4648 alphabet, canonical padding,
/// no trailing bits) decodes bytes to, or `None` when it refuses them: the
/// input is whole quads, every quad but the last holds four symbols, and
/// only the last may end in `=` or `==`.
pub open spec fn base64_standard_decode(input: Seq<u8>) -> Option<Seq<u8>>
    decreases input.len(),
{
    if input.len() == 0 {
        Some(Seq::empty())
    } else if input.len() < 4 {
        None
    } else if input.len() == 4 {
        base64_last_quad(input)
    } else {
        match (base64_full_quad(input.take(4)), base64_standard_decode(input.skip(4))) {
            (Some(a), Some(b)) => Some(a + b),
            _ => None,
        }
    }
}

/// `base64::engine::general_purpose::STANDARD.decode`: the engine with the
/// standard alphabet and the `PAD` configuration (canonical padding
/// required, trailing bits refused) gives `base64_standard_decode` of the
/// input bytes: their decoding when they are canonical base64, an error
/// otherwise. Which error it reports is not said.
#[verifier::external_body]
fn decode_base64(input: &[u8]) -> (r: Result<Vec<u8>, base64::DecodeError>)
    ensures
        match base64_standard_decode(input@) {
            Some(d) => r matches Ok(v) && v@ == d,
            None => r is Err,
        },
{
    base64::Engine::decode(&base64::engine::general_purpose::STANDARD, input)
}

/// The value of a header of a request, looked up without regard to case.
pub open spec fn header_value(req: RequestModel, name: Seq<char>) -> Option<Seq<char>> {
    if req.headers.contains_key(lower(name)) {
        Some(req.headers[lower(name)])
    } else {
        None
    }
}

/// Header names are matched without regard to ASCII case: two names that
/// lower-case alike find the same header.
pub proof fn law_header_lookup_ignores_case(req: RequestModel, a: Seq<char>, b: Seq<char>)
    requires
        lower(a) == lower(b),
    ensures
        header_value(req, a) == header_value(req, b),
{
}

/// Lower-casing is idempotent, so a name and its lower-cased form find the
/// same header.
pub proof fn law_lowered_name_finds_same_header(req: RequestModel, name: Seq<char>)
    ensures
        header_value(req, lower(name)) == header_value(req, name),
{
    assert(lower(lower(name)) =~= lower(name));
}

/// `"Basic "`, the scheme prefix of Basic credentials.
pub open spec fn basic_prefix() -> Seq<char> {
    seq!['B', 'a', 's', 'i', 'c', ' ']
}

/// The base64 token of a `Basic` Authorization header, trimmed.
pub open spec fn basic_token(req: RequestModel) -> Option<Seq<char>> {
    match header_value(req, "authorization"@) {
        Some(h) => if h.len() >= 6 && h.take(6) == basic_prefix() {
            Some(trim(h.skip(6)))
        } else {
            None
        },
        None => None,
    }
}

/// Decoded credentials match the expected `user:password`: they are valid
/// UTF-8 and their bytes are those of the expected text.
pub open spec fn credentials_match(decoded: Seq<u8>, expected: Seq<char>) -> bool {
    valid_utf8(decoded) && decoded == encode_utf8(expected)
}

/// Whether a request carries the expected Basic credentials.
pub open spec fn authorized(req: RequestModel, expected: Seq<char>) -> bool {
    match basic_token(req) {
        Some(t) => match base64_standard_decode(encode_utf8(t)) {
            Some(d) => credentials_match(d, expected),
            None => false,
        },
        None => false,
    }
}

/// Compares two byte strings, looking at every byte of them when their
/// lengths agree.
pub fn constant_time_eq(a: &[u8], b: &[u8]) -> (r: bool)
    ensures
        r == (a@ == b@),
{
    if a.len() != b.len() {
        return false;
    }
    let mut diff: u8 = 0;
    let mut i: usize = 0;
    while i < a.len()
        invariant
            a.len() == b.len(),
            i <= a.len(),
            (diff == 0) == (forall|j: int| 0 <= j < i ==> a@[j] == b@[j]),
        decreases a.len() - i,
    {
        let x = a[i];
        let y = b[i];
        let d = diff | (x ^ y);
        assert((d == 0) == (diff == 0 && x == y)) by (bit_vector)
            requires
                d == diff | (x ^ y),
        ;
        diff = d;
        i = i + 1;
    }
    if diff == 0 {
        assert(a@ =~= b@);
    }
    diff == 0
}

/// Whether decoded credentials match the expected `user:password`.
pub fn check_decoded(decoded: Vec<u8>, expected: &str) -> (r: bool)
    ensures
        r == credentials_match(decoded@, expected@),
{
    let ghost d = decoded@;
    match string_from_utf8(decoded) {
        Some(text) => {
            proof {
                decode_utf8_encode_utf8(d);
            }
            constant_time_eq(text.as_str().as_bytes(), expected.as_bytes())
        },
        None => false,
    }
}

/// The base64 token of a `Basic` Authorization header.
pub fn basic_credentials(req: &Request) -> (r: Option<Vec<u8>>)
    ensures
        match basic_token(req@) {
            Some(t) => r matches Some(b) && b@ == encode_utf8(t),
            None => r is None,
        },
{
    let header = match req.header("authorization") {
        Some(h) => h,
        None => return None,
    };
    let v = chars_of(header.as_str());
    if v.len() < 6 || !(v[0] == 'B' && v[1] == 'a' && v[2] == 's' && v[3] == 'i' && v[4] == 'c'
        && v[5] == ' ') {
        assert(v@.len() < 6 || v@.take(6) != basic_prefix()) by {
            if v@.len() >= 6 && v@.take(6) == basic_prefix() {
                assert(v@.take(6)[0] == 'B' && v@.take(6)[5] == ' ');
                assert(v@.take(6)[1] == 'a' && v@.take(6)[2] == 's');
                assert(v@.take(6)[3] == 'i' && v@.take(6)[4] == 'c');
            }
        }
        return None;
    }
    assert(v@.take(6) =~= basic_prefix());
    let rest = crate::text::copy_range(&v, 6, v.len());
    assert(rest@ =~= v@.skip(6));
    let token = trim_exec(&rest);
    let s = crate::text::string_of(&token);
    Some(bytes_of(s.as_str()))
}

/// HTTP Basic check: the request's Authorization header holds `Basic `
/// and the base64 of exactly the expected `user:password`.
pub fn check(req: &Request, expected: &str) -> (r: bool)
    ensures
        r == authorized(req@, expected@),
{
    let token = match basic_credentials(req) {
        Some(t) => t,
        None => return false,
    };
    match decode_base64(token.as_slice()) {
        Ok(decoded) => check_decoded(decoded, expected),
        Err(_) => false,
    }
}

} // verus!
