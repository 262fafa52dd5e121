//! Minimal HTTP/1.1 request parser. Handles GET and POST with
//! `application/x-www-form-urlencoded` bodies: no multipart, no chunked,
//! no `Expect: 100-continue`.

use crate::text::{
    chars_of, copy_range, crlf, find, find_char, find_exec, lemma_find, lemma_split_nonempty,
    lower, lower_exec, one, owned, push_char, range_holds, ranges_match, split, split_once,
    split_ranges, str_from_utf8, string_from_utf8, string_of, string_of_range, trim, trim_exec,
};
use vstd::prelude::*;
use vstd::utf8::*;

verus! {

broadcast use vstd::utf8::group_utf8_lib;

// ---------------------------------------------------------------------
// Percent coding
// ---------------------------------------------------------------------

/// The value of an ASCII hexadecimal digit.
pub open spec fn hex_value(b: u8) -> Option<u8> {
    if 48 <= b <= 57 {
        Some((b - 48) as u8)
    } else if 97 <= b <= 102 {
        Some((b - 97 + 10) as u8)
    } else if 65 <= b <= 70 {
        Some((b - 65 + 10) as u8)
    } else {
        None
    }
}

/// Percent-decoding of bytes: `+` becomes a space, `%` followed by two hex
/// digits becomes the byte they spell, every other byte stays.
pub open spec fn url_decode_bytes(b: Seq<u8>) -> Seq<u8>
    decreases b.len(),
{
    if b.len() == 0 {
        Seq::empty()
    } else if b[0] == 43 {
        seq![32u8] + url_decode_bytes(b.skip(1))
    } else if b[0] == 37 && b.len() > 2 && hex_value(b[1]) is Some && hex_value(b[2]) is Some {
        seq![(hex_value(b[1])->0 * 16 + hex_value(b[2])->0) as u8] + url_decode_bytes(b.skip(3))
    } else {
        seq![b[0]] + url_decode_bytes(b.skip(1))
    }
}

/// Text that stands for a decoded value that is not valid UTF-8.
pub open spec fn invalid_utf8_text() -> Seq<char> {
    "<invalid-utf8>"@
}

/// The decoded form of URL-encoded text.
pub open spec fn url_decoded(s: Seq<char>) -> Seq<char> {
    let d = url_decode_bytes(encode_utf8(s));
    if valid_utf8(d) {
        decode_utf8(d)
    } else {
        invalid_utf8_text()
    }
}

/// `hex_digit`: the value of an ASCII hexadecimal digit.
pub fn hex_digit(b: u8) -> (r: Option<u8>)
    ensures
        r == hex_value(b),
{
    if 48 <= b && b <= 57 {
        Some(b - 48)
    } else if 97 <= b && b <= 102 {
        Some(b - 97 + 10)
    } else if 65 <= b && b <= 70 {
        Some(b - 65 + 10)
    } else {
        None
    }
}

/// Decodes percent-encoded form or path text.
pub fn url_decode(s: &str) -> (r: String)
    ensures
        r@ == url_decoded(s@),
{
    let bytes = s.as_bytes();
    let mut out: Vec<u8> = Vec::new();
    let mut i: usize = 0;
    let ghost b = bytes@;
    assert(b.skip(0) =~= b);
    while i < bytes.len()
        invariant
            b == bytes@,
            i <= bytes.len(),
            url_decode_bytes(b) == out@ + url_decode_bytes(b.skip(i as int)),
        decreases bytes.len() - i,
    {
        let ghost rest = b.skip(i as int);
        let ghost old_out = out@;
        let c = bytes[i];
        assert(rest[0] == c);
        let mut step: usize = 1;
        let mut x: u8 = c;
        if c == 43 {
            x = 32;
        } else if c == 37 && bytes.len() - i > 2 {
            let hi = hex_digit(bytes[i + 1]);
            let lo = hex_digit(bytes[i + 2]);
            assert(rest[1] == bytes@[i + 1] && rest[2] == bytes@[i + 2]);
            match (hi, lo) {
                (Some(h), Some(l)) => {
                    let v = (h << 4) | l;
                    assert(v == (h * 16 + l) as u8) by (bit_vector)
                        requires
                            h < 16,
                            l < 16,
                            v == (h << 4) | l,
                    ;
                    x = v;
                    step = 3;
                },
                _ => {},
            }
        }
        assert(rest.skip(step as int) =~= b.skip(i + step));
        assert(url_decode_bytes(rest) == seq![x] + url_decode_bytes(rest.skip(step as int)));
        out.push(x);
        i = i + step;
        assert(old_out + (seq![x] + url_decode_bytes(b.skip(i as int))) =~= out@
            + url_decode_bytes(b.skip(i as int)));
    }
    match string_from_utf8(out) {
        Some(text) => text,
        None => owned("<invalid-utf8>"),
    }
}

/// Bytes that URL encoding leaves as they are: ASCII letters, digits and `-_.~`.
pub open spec fn unreserved(b: u8) -> bool {
    ||| 97 <= b <= 122
    ||| 65 <= b <= 90
    ||| 48 <= b <= 57
    ||| b == 45
    ||| b == 95
    ||| b == 46
    ||| b == 126
}

/// The upper-case hexadecimal digit for `n < 16`.
pub open spec fn hex_upper(n: u8) -> char {
    if n < 10 {
        ((48 + n) as u8) as char
    } else {
        ((55 + n) as u8) as char
    }
}

/// The encoding of one byte: itself when unreserved, else `%XX`.
pub open spec fn encode_byte(b: u8) -> Seq<char> {
    if unreserved(b) {
        seq![b as char]
    } else {
        seq!['%', hex_upper(b / 16), hex_upper(b % 16)]
    }
}

/// Percent-encoding of bytes.
pub open spec fn url_encode_bytes(b: Seq<u8>) -> Seq<char>
    decreases b.len(),
{
    if b.len() == 0 {
        Seq::empty()
    } else {
        encode_byte(b[0]) + url_encode_bytes(b.skip(1))
    }
}

/// The URL encoding of text: its UTF-8 bytes, percent-encoded.
pub open spec fn url_encoded(s: Seq<char>) -> Seq<char> {
    url_encode_bytes(encode_utf8(s))
}

fn hex_upper_exec(n: u8) -> (c: char)
    requires
        n < 16,
    ensures
        c == hex_upper(n),
{
    if n < 10 {
        (48 + n) as char
    } else {
        (55 + n) as char
    }
}

/// Percent-encodes text for use in a URL path or query.
pub fn url_encode(s: &str) -> (r: String)
    ensures
        r@ == url_encoded(s@),
{
    let bytes = s.as_bytes();
    let ghost b = bytes@;
    let mut out = String::new();
    let mut i: usize = 0;
    assert(b.skip(0) =~= b);
    while i < bytes.len()
        invariant
            b == bytes@,
            i <= bytes.len(),
            url_encode_bytes(b) == out@ + url_encode_bytes(b.skip(i as int)),
        decreases bytes.len() - i,
    {
        let ghost rest = b.skip(i as int);
        let ghost old_out = out@;
        let c = bytes[i];
        assert(rest[0] == c);
        assert(rest.skip(1) =~= b.skip(i + 1));
        if (97 <= c && c <= 122) || (65 <= c && c <= 90) || (48 <= c && c <= 57) || c == 45 || c
            == 95 || c == 46 || c == 126 {
            push_char(&mut out, c as char);
        } else {
            assert(c >> 4 == c / 16 && c & 15 == c % 16) by (bit_vector);
            push_char(&mut out, '%');
            push_char(&mut out, hex_upper_exec(c >> 4));
            push_char(&mut out, hex_upper_exec(c & 15));
        }
        assert(out@ =~= old_out + encode_byte(c));
        i = i + 1;
        assert(old_out + (encode_byte(c) + url_encode_bytes(b.skip(i as int))) =~= out@
            + url_encode_bytes(b.skip(i as int)));
    }
    out
}

/// The characters that can appear in URL-encoded text.
pub open spec fn url_safe_char(c: char) -> bool {
    ||| 'a' <= c <= 'z'
    ||| 'A' <= c <= 'Z'
    ||| '0' <= c <= '9'
    ||| c == '-'
    ||| c == '_'
    ||| c == '.'
    ||| c == '~'
    ||| c == '%'
}

/// The bytes of a sequence of ASCII characters.
pub open spec fn ascii_bytes(s: Seq<char>) -> Seq<u8> {
    s.map_values(|c: char| c as u8)
}

proof fn lemma_encode_byte_safe(b: u8)
    ensures
        forall|i: int| 0 <= i < encode_byte(b).len() ==> url_safe_char(#[trigger] encode_byte(b)[i]),
        url_decode_bytes(ascii_bytes(encode_byte(b))) == seq![b],
        forall|y: Seq<u8>| #[trigger] url_decode_bytes(ascii_bytes(encode_byte(b)) + y) == seq![b]
            + url_decode_bytes(y),
{
    let e = encode_byte(b);
    if unreserved(b) {
        assert(ascii_bytes(e) =~= seq![b]);
        assert forall|y: Seq<u8>| #[trigger] url_decode_bytes(ascii_bytes(encode_byte(b)) + y) == seq![b]
            + url_decode_bytes(y) by {
            assert((seq![b] + y).skip(1) =~= y);
        }
        assert(url_decode_bytes(seq![b]) == seq![b] + url_decode_bytes(seq![b].skip(1)));
        assert(seq![b].skip(1) =~= Seq::<u8>::empty());
    } else {
        let h = b / 16;
        let l = b % 16;
        assert(hex_upper(h) as u8 == if h < 10 { 48 + h } else { 55 + h });
        assert(hex_upper(l) as u8 == if l < 10 { 48 + l } else { 55 + l });
        assert(ascii_bytes(e) =~= seq![37u8, hex_upper(h) as u8, hex_upper(l) as u8]);
        assert(hex_value(hex_upper(h) as u8) == Some(h));
        assert(hex_value(hex_upper(l) as u8) == Some(l));
        assert forall|y: Seq<u8>| #[trigger] url_decode_bytes(ascii_bytes(encode_byte(b)) + y) == seq![b]
            + url_decode_bytes(y) by {
            let x = ascii_bytes(e) + y;
            assert(x[0] == 37 && x[1] == hex_upper(h) as u8 && x[2] == hex_upper(l) as u8);
            assert(x.skip(3) =~= y);
        }
        assert(ascii_bytes(e) + Seq::<u8>::empty() =~= ascii_bytes(e));
        assert(url_decode_bytes(Seq::<u8>::empty()) =~= Seq::<u8>::empty());
    }
}

proof fn lemma_url_encode_bytes(b: Seq<u8>)
    ensures
        forall|i: int|
            0 <= i < url_encode_bytes(b).len() ==> url_safe_char(#[trigger] url_encode_bytes(b)[i]),
        url_decode_bytes(ascii_bytes(url_encode_bytes(b))) == b,
    decreases b.len(),
{
    if b.len() == 0 {
        assert(ascii_bytes(url_encode_bytes(b)) =~= Seq::<u8>::empty());
        assert(b =~= Seq::<u8>::empty());
    } else {
        let rest = b.skip(1);
        lemma_url_encode_bytes(rest);
        lemma_encode_byte_safe(b[0]);
        let e = encode_byte(b[0]);
        let t = url_encode_bytes(rest);
        assert(url_encode_bytes(b) == e + t);
        assert forall|i: int| 0 <= i < (e + t).len() implies url_safe_char(#[trigger] (e + t)[i]) by {
            if i < e.len() {
                assert((e + t)[i] == e[i]);
            } else {
                assert((e + t)[i] == t[i - e.len()]);
            }
        }
        assert(ascii_bytes(e + t) =~= ascii_bytes(e) + ascii_bytes(t));
        assert(seq![b[0]] + rest =~= b);
    }
}

/// The UTF-8 encoding of a concatenation is the concatenation of encodings.
pub proof fn lemma_encode_utf8_concat(a: Seq<char>, b: Seq<char>)
    ensures
        encode_utf8(a + b) == encode_utf8(a) + encode_utf8(b),
    decreases a.len(),
{
    if a.len() == 0 {
        assert(a + b =~= b);
    } else {
        lemma_encode_utf8_concat(a.drop_first(), b);
        assert((a + b).drop_first() =~= a.drop_first() + b);
        assert((a + b)[0] == a[0]);
    }
}

/// Bytes that URL decoding leaves as they are: no `%` and no `+`.
pub open spec fn plain_bytes(b: Seq<u8>) -> bool {
    forall|i: int| 0 <= i < b.len() ==> #[trigger] b[i] != 37 && b[i] != 43
}

proof fn lemma_decode_plain_prefix(q: Seq<u8>, y: Seq<u8>)
    requires
        plain_bytes(q),
    ensures
        url_decode_bytes(q + y) == q + url_decode_bytes(y),
    decreases q.len(),
{
    if q.len() > 0 {
        let rest = q.drop_first();
        assert(plain_bytes(rest)) by {
            assert forall|i: int| 0 <= i < rest.len() implies #[trigger] rest[i] != 37 && rest[i]
                != 43 by {
                assert(rest[i] == q[i + 1]);
            }
        }
        lemma_decode_plain_prefix(rest, y);
        let x = q + y;
        assert(x[0] == q[0]);
        assert(x.skip(1) =~= rest + y);
        assert(q =~= seq![q[0]] + rest);
    }
}

/// Decoding text whose bytes hold no `%` or `+`, followed by URL-encoded
/// text, gives the first text followed by the original.
pub proof fn lemma_url_decoded_after_plain(p: Seq<char>, x: Seq<char>)
    requires
        plain_bytes(encode_utf8(p)),
    ensures
        url_decoded(p + url_encoded(x)) == p + x,
{
    let e = url_encoded(x);
    lemma_url_encode_bytes(encode_utf8(x));
    assert(is_ascii_chars(e)) by {
        assert forall|i: int| 0 <= i < e.len() implies '\0' <= #[trigger] e[i] <= '\u{7f}' by {
            assert(url_safe_char(e[i]));
        }
    }
    is_ascii_chars_encode_utf8(e);
    assert(encode_utf8(e) =~= ascii_bytes(e));
    lemma_encode_utf8_concat(p, e);
    lemma_decode_plain_prefix(encode_utf8(p), ascii_bytes(e));
    lemma_encode_utf8_concat(p, x);
}

/// Decoding the encoding of `b` followed by more bytes gives `b` followed by
/// the decoding of the rest.
proof fn lemma_decode_encoded_prefix(b: Seq<u8>, y: Seq<u8>)
    ensures
        url_decode_bytes(ascii_bytes(url_encode_bytes(b)) + y) == b + url_decode_bytes(y),
    decreases b.len(),
{
    if b.len() == 0 {
        assert(ascii_bytes(url_encode_bytes(b)) + y =~= y);
        assert(b + url_decode_bytes(y) =~= url_decode_bytes(y));
    } else {
        let e = encode_byte(b[0]);
        let t = url_encode_bytes(b.skip(1));
        lemma_decode_encoded_prefix(b.skip(1), y);
        lemma_encode_byte_safe(b[0]);
        assert(ascii_bytes(e + t) =~= ascii_bytes(e) + ascii_bytes(t));
        assert(ascii_bytes(e + t) + y =~= ascii_bytes(e) + (ascii_bytes(t) + y));
        assert(url_decode_bytes(ascii_bytes(e) + (ascii_bytes(t) + y)) == seq![b[0]]
            + url_decode_bytes(ascii_bytes(t) + y));
        assert(seq![b[0]] + (b.skip(1) + url_decode_bytes(y)) =~= b + url_decode_bytes(y));
    }
}

/// The encoding of text is ASCII, and its UTF-8 bytes are its characters.
proof fn lemma_url_encoded_ascii(x: Seq<char>)
    ensures
        is_ascii_chars(url_encoded(x)),
        encode_utf8(url_encoded(x)) == ascii_bytes(url_encoded(x)),
{
    let e = url_encoded(x);
    lemma_url_encode_bytes(encode_utf8(x));
    assert(is_ascii_chars(e)) by {
        assert forall|i: int| 0 <= i < e.len() implies '\0' <= #[trigger] e[i] <= '\u{7f}' by {
            assert(url_safe_char(e[i]));
        }
    }
    is_ascii_chars_encode_utf8(e);
    assert(encode_utf8(e) =~= ascii_bytes(e));
}

/// Decoding a link made of plain text, an encoded value, plain text and an
/// encoded value gives the four parts with the values as they were.
#[verifier::spinoff_prover]
#[verifier::rlimit(40)]
pub proof fn lemma_url_decoded_link(p: Seq<char>, x: Seq<char>, q: Seq<char>, z: Seq<char>)
    requires
        plain_bytes(encode_utf8(p)),
        plain_bytes(encode_utf8(q)),
    ensures
        url_decoded(p + url_encoded(x) + q + url_encoded(z)) == p + x + q + z,
{
    let ex = url_encoded(x);
    let ez = url_encoded(z);
    lemma_url_encoded_ascii(x);
    lemma_url_encoded_ascii(z);
    lemma_encode_utf8_concat(p, ex);
    lemma_encode_utf8_concat(p + ex, q);
    lemma_encode_utf8_concat(p + ex + q, ez);
    let bp = encode_utf8(p);
    let bq = encode_utf8(q);
    let ax = ascii_bytes(ex);
    let az = ascii_bytes(ez);
    let all = encode_utf8(p + ex + q + ez);
    assert(all =~= bp + (ax + (bq + az)));
    lemma_decode_plain_prefix(bp, ax + (bq + az));
    lemma_decode_encoded_prefix(encode_utf8(x), bq + az);
    lemma_decode_plain_prefix(bq, az);
    lemma_decode_encoded_prefix(encode_utf8(z), Seq::empty());
    assert(az + Seq::<u8>::empty() =~= az);
    assert(url_decode_bytes(Seq::<u8>::empty()) =~= Seq::<u8>::empty());
    lemma_encode_utf8_concat(p, x);
    lemma_encode_utf8_concat(p + x, q);
    lemma_encode_utf8_concat(p + x + q, z);
    let bx = encode_utf8(x);
    let bz = encode_utf8(z);
    assert(url_decode_bytes(all) =~= bp + bx + bq + (bz + Seq::<u8>::empty()));
    assert(bz + Seq::<u8>::empty() =~= bz);
    assert(url_decode_bytes(all) =~= encode_utf8(p + x + q + z));
}

/// ASCII text without `%` or `+` is its own URL decoding, and its bytes
/// are plain.
pub proof fn lemma_plain_ascii(p: Seq<char>)
    requires
        is_ascii_chars(p),
        forall|i: int| 0 <= i < p.len() ==> #[trigger] p[i] != '%' && p[i] != '+',
    ensures
        plain_bytes(encode_utf8(p)),
        url_decoded(p) == p,
{
    is_ascii_chars_encode_utf8(p);
    is_ascii_chars_nat_bound(p);
    assert forall|i: int| 0 <= i < encode_utf8(p).len() implies #[trigger] encode_utf8(p)[i] != 37
        && encode_utf8(p)[i] != 43 by {
        let c = p[i];
        assert(encode_utf8(p)[i] == c as u8);
        assert((c as nat) < 128);
        if c as u8 == 37 {
            assert(c as u32 == 37);
            char_u32_cast(c, 37);
            char_u32_cast('%', 37);
        }
        if c as u8 == 43 {
            assert(c as u32 == 43);
            char_u32_cast(c, 43);
            char_u32_cast('+', 43);
        }
    }
    lemma_url_decoded_after_plain(p, Seq::empty());
    assert(url_encoded(Seq::<char>::empty()) =~= Seq::<char>::empty()) by {
        assert(encode_utf8(Seq::<char>::empty()) =~= Seq::<u8>::empty());
    }
    assert(p + Seq::<char>::empty() =~= p);
}

/// Every character of URL-encoded text is an ASCII letter or digit or one
/// of `-_.~%`.
pub proof fn law_url_encoded_is_url_safe(s: Seq<char>)
    ensures
        forall|i: int| 0 <= i < url_encoded(s).len() ==> url_safe_char(#[trigger] url_encoded(s)[i]),
{
    lemma_url_encode_bytes(encode_utf8(s));
}

/// URL-encoded text holds none of the characters outside the URL-safe set.
pub proof fn lemma_url_encoded_lacks(s: Seq<char>, c: char)
    requires
        !url_safe_char(c),
    ensures
        crate::text::lacks(url_encoded(s), c),
{
    law_url_encoded_is_url_safe(s);
}

/// URL-encoded text counts none of the HTML markup characters.
pub proof fn lemma_count_encoded(s: Seq<char>, c: char)
    requires
        crate::render::markup_char(c),
    ensures
        crate::text::count(url_encoded(s), c) == 0,
{
    lemma_url_encoded_lacks(s, c);
    crate::text::lemma_count_lacks(url_encoded(s), c);
}

/// Decoding what `url_encode` produced gives back the original text.
pub proof fn law_url_decode_inverts_encode(s: Seq<char>)
    ensures
        url_decoded(url_encoded(s)) == s,
{
    let b = encode_utf8(s);
    let e = url_encode_bytes(b);
    lemma_url_encode_bytes(b);
    assert(is_ascii_chars(e)) by {
        assert forall|i: int| 0 <= i < e.len() implies '\0' <= #[trigger] e[i] <= '\u{7f}' by {
            assert(url_safe_char(e[i]));
        }
    }
    is_ascii_chars_encode_utf8(e);
    assert(encode_utf8(e) =~= ascii_bytes(e));
}

// ---------------------------------------------------------------------
// Field maps
// ---------------------------------------------------------------------

/// Entries as pairs of character sequences.
pub open spec fn pairs_of(entries: Seq<(String, String)>) -> Seq<(Seq<char>, Seq<char>)> {
    entries.map_values(|e: (String, String)| (e.0@, e.1@))
}

/// A map from text keys to text values, each key at most once: the store
/// for query parameters, form fields and headers.
///
/// It is a vector of pairs whose keys are distinct, viewed as a `Map`,
/// rather than a std `BTreeMap<String, String>`: vstd's specification of
/// `BTreeMap` means something only for key types shown to obey its model of
/// `Ord` (the integer types, and tuples, references and options of them),
/// and `String` is not one, so neither `get` nor `insert` could be proved
/// to find what was stored. Entry order is not part of the view; nothing
/// here reads it.
pub struct FieldMap {
    entries: Vec<(String, String)>,
}

impl FieldMap {
    /// The entries as pairs of character sequences.
    pub closed spec fn pairs(&self) -> Seq<(Seq<char>, Seq<char>)> {
        pairs_of(self.entries@)
    }

    #[verifier::type_invariant]
    spec fn keys_distinct(&self) -> bool {
        forall|i: int, j: int|
            0 <= i < j < self.entries.len() ==> #[trigger] self.entries@[i].0@
                != #[trigger] self.entries@[j].0@
    }

    /// An empty map.
    pub fn new() -> (m: Self)
        ensures
            m@ == Map::<Seq<char>, Seq<char>>::empty(),
    {
        let m = FieldMap { entries: Vec::new() };
        assert(m@ =~= Map::<Seq<char>, Seq<char>>::empty());
        m
    }

    /// Where `key` stands among the entries.
    fn index_of(&self, key: &String) -> (r: Option<usize>)
        ensures
            match r {
                Some(i) => i < self.entries.len() && self.entries@[i as int].0@ == key@,
                None => forall|i: int|
                    0 <= i < self.entries.len() ==> self.entries@[i].0@ != key@,
            },
    {
        let mut i: usize = 0;
        while i < self.entries.len()
            invariant
                i <= self.entries.len(),
                forall|j: int| 0 <= j < i ==> self.entries@[j].0@ != key@,
            decreases self.entries.len() - i,
        {
            if self.entries[i].0 == *key {
                return Some(i);
            }
            i = i + 1;
        }
        None
    }

    /// The value stored under `key`.
    pub fn get(&self, key: &str) -> (r: Option<&String>)
        ensures
            match r {
                Some(v) => self@.contains_key(key@) && self@[key@] == v@,
                None => !self@.contains_key(key@),
            },
    {
        proof {
            use_type_invariant(self);
        }
        let k = owned(key);
        match self.index_of(&k) {
            Some(i) => {
                proof {
                    self.lemma_view_at(i as int);
                }
                Some(&self.entries[i].1)
            },
            None => {
                assert(!self@.contains_key(key@)) by {
                    if self@.contains_key(key@) {
                        let j = choose|j: int| 0 <= j < self.entries.len() && self.entries@[j].0@ == key@;
                        assert(self.entries@[j].0@ == key@);
                    }
                }
                None
            },
        }
    }

    /// The value stored under `key`, or the empty string.
    pub fn get_or_empty(&self, key: &str) -> (r: String)
        ensures
            r@ == (if self@.contains_key(key@) { self@[key@] } else { Seq::empty() }),
    {
        match self.get(key) {
            Some(v) => v.clone(),
            None => String::new(),
        }
    }

    proof fn lemma_view_at(&self, i: int)
        requires
            self.keys_distinct(),
            0 <= i < self.entries.len(),
        ensures
            self@.contains_key(self.entries@[i].0@),
            self@[self.entries@[i].0@] == self.entries@[i].1@,
    {
        let k = self.entries@[i].0@;
        assert(self.pairs()[i].0 == k);
        assert(self@.contains_key(k));
        let j = choose|j: int| 0 <= j < self.pairs().len() && self.pairs()[j].0 == k;
        assert(self.pairs()[j].0 == k);
        if j != i {
            if i < j {
                assert(self.entries@[i].0@ != self.entries@[j].0@);
            } else {
                assert(self.entries@[j].0@ != self.entries@[i].0@);
            }
        }
    }

    /// Stores `value` under `key`, replacing what was stored there.
    pub fn insert(&mut self, key: String, value: String)
        ensures
            final(self)@ == old(self)@.insert(key@, value@),
    {
        proof {
            use_type_invariant(&*self);
        }
        let ghost before = self@;
        let ghost old_entries = self.entries@;
        let found = self.index_of(&key);
        let mut entries: Vec<(String, String)> = Vec::new();
        core::mem::swap(&mut entries, &mut self.entries);
        let ghost kv = key@;
        let ghost vv = value@;
        match found {
            Some(i) => {
                entries.set(i, (key, value));
            },
            None => {
                entries.push((key, value));
            },
        }
        assert forall|a: int, b: int|
            0 <= a < b < entries.len() implies #[trigger] entries@[a].0@
                != #[trigger] entries@[b].0@ by {
            if found is Some {
                let i = found->0 as int;
                if a != i && b != i {
                    assert(entries@[a] == old_entries[a] && entries@[b] == old_entries[b]);
                } else if a == i {
                    assert(entries@[b] == old_entries[b]);
                } else {
                    assert(entries@[a] == old_entries[a]);
                }
            } else {
                if b < old_entries.len() {
                    assert(entries@[a] == old_entries[a] && entries@[b] == old_entries[b]);
                } else {
                    assert(entries@[a] == old_entries[a]);
                }
            }
        }
        self.entries = entries;
        proof {
            let m = self@;
            assert forall|k: Seq<char>| #[trigger] m.contains_key(k) == before.insert(kv, vv).contains_key(k) by {
                if k == kv {
                    match found {
                        Some(i) => { self.lemma_view_at(i as int); },
                        None => { self.lemma_view_at(old_entries.len() as int); },
                    }
                } else {
                    if m.contains_key(k) {
                        let j = choose|j: int| 0 <= j < self.pairs().len() && self.pairs()[j].0 == k;
                        assert(self.pairs()[j].0 == k);
                        assert(self.entries@[j] == old_entries[j]);
                        assert(pairs_of(old_entries)[j].0 == k);
                    }
                    if before.contains_key(k) {
                        let j = choose|j: int| 0 <= j < old_entries.len() && #[trigger] pairs_of(old_entries)[j].0 == k;
                        assert(old_entries[j].0@ == k);
                        assert(self.entries@[j] == old_entries[j]);
                        assert(self.pairs()[j].0 == k);
                    }
                }
            }
            assert forall|k: Seq<char>| m.contains_key(k) implies #[trigger] m[k] == before.insert(kv, vv)[k] by {
                if k == kv {
                    match found {
                        Some(i) => { self.lemma_view_at(i as int); },
                        None => { self.lemma_view_at(old_entries.len() as int); },
                    }
                } else {
                    let j = choose|j: int| 0 <= j < self.pairs().len() && self.pairs()[j].0 == k;
                    assert(self.pairs()[j].0 == k);
                    assert(self.entries@[j] == old_entries[j]);
                    self.lemma_view_at(j);
                    assert(before.contains_key(k)) by {
                        assert(pairs_of(old_entries)[j].0 == k);
                    }
                    let j2 = choose|j2: int| 0 <= j2 < old_entries.len() && #[trigger] pairs_of(old_entries)[j2].0 == k;
                    assert(old_entries[j2].0@ == k);
                    assert(self.entries@[j2] == old_entries[j2]);
                    self.lemma_view_at(j2);
                }
            }
            assert(m =~= before.insert(kv, vv));
        }
    }
}

impl View for FieldMap {
    type V = Map<Seq<char>, Seq<char>>;

    closed spec fn view(&self) -> Map<Seq<char>, Seq<char>> {
        Map::new(
            |k: Seq<char>| exists|i: int| 0 <= i < self.pairs().len() && self.pairs()[i].0 == k,
            |k: Seq<char>|
                self.pairs()[choose|i: int| 0 <= i < self.pairs().len() && self.pairs()[i].0 == k].1,
        )
    }
}

// ---------------------------------------------------------------------
// Form decoding
// ---------------------------------------------------------------------

/// The raw key and value of one `key=value` pair; a pair without `=` is a
/// key with an empty value.
pub open spec fn pair_key_value(pair: Seq<char>) -> (Seq<char>, Seq<char>) {
    match find(pair, one('=')) {
        Some(i) => (pair.take(i), pair.skip(i + 1)),
        None => (pair, Seq::empty()),
    }
}

/// The map that a sequence of pairs builds, empty pairs skipped, later keys
/// replacing earlier ones.
pub open spec fn form_fold(pairs: Seq<Seq<char>>) -> Map<Seq<char>, Seq<char>>
    decreases pairs.len(),
{
    if pairs.len() == 0 {
        Map::empty()
    } else {
        let m = form_fold(pairs.drop_last());
        let p = pairs.last();
        if p.len() == 0 {
            m
        } else {
            m.insert(url_decoded(pair_key_value(p).0), url_decoded(pair_key_value(p).1))
        }
    }
}

/// The fields of `application/x-www-form-urlencoded` text.
pub open spec fn form_map(s: Seq<char>) -> Map<Seq<char>, Seq<char>> {
    form_fold(split(s, one('&')))
}

/// Decodes `application/x-www-form-urlencoded` text into its fields.
pub fn parse_form(s: &str) -> (m: FieldMap)
    ensures
        m@ == form_map(s@),
{
    let v = chars_of(s);
    let amp = vec!['&'];
    assert(amp@ =~= one('&'));
    let ranges = split_ranges(&v, &amp);
    let ghost pieces = split(v@, one('&'));
    let mut out = FieldMap::new();
    let mut i: usize = 0;
    assert(pieces.take(0) =~= Seq::<Seq<char>>::empty());
    while i < ranges.len()
        invariant
            i <= ranges.len(),
            ranges_match(v@, ranges@, pieces),
            pieces == split(v@, one('&')),
            out@ == form_fold(pieces.take(i as int)),
        decreases ranges.len() - i,
    {
        let (lo, hi) = ranges[i];
        assert(range_holds(v@, ranges@[i as int], pieces[i as int]));
        assert(pieces.take(i + 1).drop_last() =~= pieces.take(i as int));
        assert(pieces.take(i + 1).last() == pieces[i as int]);
        if lo < hi {
            let pair = copy_range(&v, lo, hi);
            let (k, val) = match find_char(&pair, '=') {
                Some(j) => {
                    proof { lemma_find(pair@, one('=')); }
                    (string_of_range(&pair, 0, j), string_of_range(&pair, j + 1, pair.len()))
                },
                None => (string_of(&pair), String::new()),
            };
            assert(k@ == pair_key_value(pair@).0 && val@ == pair_key_value(pair@).1) by {
                match find(pair@, one('=')) {
                    Some(j) => {
                        assert(pair@.subrange(0, j) =~= pair@.take(j));
                        assert(pair@.subrange(j + 1, pair@.len() as int) =~= pair@.skip(j + 1));
                    },
                    None => {},
                }
            }
            out.insert(url_decode(k.as_str()), url_decode(val.as_str()));
        }
        i = i + 1;
    }
    assert(pieces.take(ranges.len() as int) =~= pieces);
    out
}

/// One field `key=value`, both URL-encoded.
pub open spec fn form_field(kv: (Seq<char>, Seq<char>)) -> Seq<char> {
    url_encoded(kv.0) + one('=') + url_encoded(kv.1)
}

/// Fields joined by `&`, as a form or a query carries them.
pub open spec fn form_text(fields: Seq<(Seq<char>, Seq<char>)>) -> Seq<char>
    decreases fields.len(),
{
    if fields.len() == 0 {
        Seq::empty()
    } else if fields.len() == 1 {
        form_field(fields[0])
    } else {
        form_field(fields[0]) + one('&') + form_text(fields.drop_first())
    }
}

/// The map of a sequence of fields, later keys replacing earlier ones.
pub open spec fn fields_map(fields: Seq<(Seq<char>, Seq<char>)>) -> Map<Seq<char>, Seq<char>>
    decreases fields.len(),
{
    if fields.len() == 0 {
        Map::empty()
    } else {
        fields_map(fields.drop_last()).insert(fields.last().0, fields.last().1)
    }
}

/// A field holds no `&`, and splits at its `=` into the two encodings.
#[verifier::spinoff_prover]
proof fn lemma_form_field(kv: (Seq<char>, Seq<char>))
    ensures
        crate::text::lacks(form_field(kv), '&'),
        form_field(kv).len() > 0,
        pair_key_value(form_field(kv)) == (url_encoded(kv.0), url_encoded(kv.1)),
{
    let ek = url_encoded(kv.0);
    let ev = url_encoded(kv.1);
    let f = form_field(kv);
    lemma_url_encoded_lacks(kv.0, '&');
    lemma_url_encoded_lacks(kv.1, '&');
    lemma_url_encoded_lacks(kv.0, '=');
    assert forall|i: int| 0 <= i < f.len() implies #[trigger] f[i] != '&' by {
        if i < ek.len() {
            assert(f[i] == ek[i]);
        } else if i > ek.len() {
            assert(f[i] == ev[i - ek.len() - 1]);
        }
    }
    crate::text::lemma_split_first(ek, '=', ev);
    assert(f.take(ek.len() as int) =~= ek);
    assert(f.skip(ek.len() + 1int) =~= ev);
}

/// The pieces of joined fields are the fields.
#[verifier::spinoff_prover]
proof fn lemma_form_text_split(fields: Seq<(Seq<char>, Seq<char>)>)
    requires
        fields.len() > 0,
    ensures
        split(form_text(fields), one('&')) == fields.map_values(|kv: (Seq<char>, Seq<char>)| form_field(kv)),
    decreases fields.len(),
{
    let pieces = fields.map_values(|kv: (Seq<char>, Seq<char>)| form_field(kv));
    lemma_form_field(fields[0]);
    if fields.len() == 1 {
        crate::text::lemma_split_absent(form_field(fields[0]), '&');
        assert(pieces =~= seq![form_field(fields[0])]);
    } else {
        let rest = fields.drop_first();
        lemma_form_text_split(rest);
        crate::text::lemma_split_first(form_field(fields[0]), '&', form_text(rest));
        assert(pieces =~= seq![form_field(fields[0])] + rest.map_values(
            |kv: (Seq<char>, Seq<char>)| form_field(kv),
        ));
    }
}

/// Folding the pieces of fields gives their map.
#[verifier::spinoff_prover]
proof fn lemma_form_fold_fields(fields: Seq<(Seq<char>, Seq<char>)>)
    ensures
        form_fold(fields.map_values(|kv: (Seq<char>, Seq<char>)| form_field(kv))) == fields_map(fields),
    decreases fields.len(),
{
    let pieces = fields.map_values(|kv: (Seq<char>, Seq<char>)| form_field(kv));
    if fields.len() > 0 {
        let init = fields.drop_last();
        lemma_form_fold_fields(init);
        assert(pieces.drop_last() =~= init.map_values(|kv: (Seq<char>, Seq<char>)| form_field(kv)));
        let kv = fields.last();
        assert(pieces.last() == form_field(kv));
        lemma_form_field(kv);
        law_url_decode_inverts_encode(kv.0);
        law_url_decode_inverts_encode(kv.1);
    }
}

/// Decoding form text made of URL-encoded fields gives back those fields:
/// `parse_form` of `url_encode(k1)=url_encode(v1)&...` is the map of the
/// pairs, later keys replacing earlier ones, and empty for no fields.
#[verifier::spinoff_prover]
pub proof fn law_form_decodes_encoded_fields(fields: Seq<(Seq<char>, Seq<char>)>)
    ensures
        form_map(form_text(fields)) == fields_map(fields),
{
    if fields.len() == 0 {
        let e = Seq::<char>::empty();
        crate::text::lemma_split_absent(e, '&');
        assert(form_text(fields) == e);
        assert(split(e, one('&')) == seq![e]);
        assert(seq![e].drop_last() =~= Seq::<Seq<char>>::empty());
        assert(seq![e].last() == e);
        assert(form_fold(seq![e]) == form_fold(Seq::<Seq<char>>::empty()));
        assert(form_map(e) =~= Map::<Seq<char>, Seq<char>>::empty());
    } else {
        let pieces = fields.map_values(|kv: (Seq<char>, Seq<char>)| form_field(kv));
        lemma_form_text_split(fields);
        lemma_form_fold_fields(fields);
        assert(split(form_text(fields), one('&')) == pieces);
        assert(form_fold(pieces) == fields_map(fields));
    }
}

// ---------------------------------------------------------------------
// Requests
// ---------------------------------------------------------------------

/// The name and value of a header line `name: value`: the name trimmed and
/// lower-cased, the value trimmed. A line without `:` is no header.
pub open spec fn header_entry(line: Seq<char>) -> Option<(Seq<char>, Seq<char>)> {
    match find(line, one(':')) {
        Some(i) => Some((lower(trim(line.take(i))), trim(line.skip(i + 1)))),
        None => None,
    }
}

/// The headers that a sequence of header lines declares, later lines
/// replacing earlier ones with the same name.
pub open spec fn header_fold(lines: Seq<Seq<char>>) -> Map<Seq<char>, Seq<char>>
    decreases lines.len(),
{
    if lines.len() == 0 {
        Map::empty()
    } else {
        let m = header_fold(lines.drop_last());
        match header_entry(lines.last()) {
            Some(e) => m.insert(e.0, e.1),
            None => m,
        }
    }
}

/// What a request holds, as sequences and maps.
pub struct RequestModel {
    pub method: Seq<char>,
    pub path: Seq<char>,
    pub query: Map<Seq<char>, Seq<char>>,
    pub headers: Map<Seq<char>, Seq<char>>,
    pub body: Seq<char>,
}

/// The separator between head and body, `"\r\n\r\n"`.
pub open spec fn head_separator() -> Seq<char> {
    seq!['\r', '\n', '\r', '\n']
}

/// The request target of a request line: its second space-separated piece,
/// `/` when there is none.
pub open spec fn request_target(line: Seq<char>) -> Seq<char> {
    let parts = split(line, one(' '));
    if parts.len() > 1 {
        parts[1]
    } else {
        "/"@
    }
}

/// The part of a target before `?`.
pub open spec fn target_path(target: Seq<char>) -> Seq<char> {
    match find(target, one('?')) {
        Some(i) => target.take(i),
        None => target,
    }
}

/// The part of a target after the first `?`, empty when there is none.
pub open spec fn target_query(target: Seq<char>) -> Seq<char> {
    match find(target, one('?')) {
        Some(i) => target.skip(i + 1),
        None => Seq::empty(),
    }
}

/// The request that a head and a body describe.
pub open spec fn request_model(head: Seq<char>, body: Seq<char>) -> RequestModel {
    let lines = split(head, crlf());
    let line = lines[0];
    let target = request_target(line);
    RequestModel {
        method: split(line, one(' '))[0],
        path: url_decoded(target_path(target)),
        query: form_map(target_query(target)),
        headers: header_fold(lines.drop_first()),
        body,
    }
}

/// What parsing the bytes of a request gives: the request, or the reason
/// it is refused.
pub open spec fn parse_request(bytes: Seq<u8>) -> Result<RequestModel, Seq<char>> {
    if !valid_utf8(bytes) {
        Err("non-utf8 request"@)
    } else {
        match split_once(decode_utf8(bytes), head_separator()) {
            Some((head, body)) => Ok(request_model(head, body)),
            None => Err("missing header/body separator"@),
        }
    }
}

/// A parsed HTTP request.
pub struct Request {
    pub method: String,
    pub path: String,
    pub query: FieldMap,
    pub headers: FieldMap,
    pub body: String,
}

impl View for Request {
    type V = RequestModel;

    open spec fn view(&self) -> RequestModel {
        RequestModel {
            method: self.method@,
            path: self.path@,
            query: self.query@,
            headers: self.headers@,
            body: self.body@,
        }
    }
}

/// The name and value of one header line.
fn header_line(line: &Vec<char>) -> (r: Option<(String, String)>)
    ensures
        match header_entry(line@) {
            Some(e) => r matches Some(p) && p.0@ == e.0 && p.1@ == e.1,
            None => r is None,
        },
{
    match find_char(line, ':') {
        Some(i) => {
            proof {
                lemma_find(line@, one(':'));
            }
            let name = copy_range(line, 0, i);
            let value = copy_range(line, i + 1, line.len());
            assert(name@ =~= line@.take(i as int));
            assert(value@ =~= line@.skip(i + 1));
            let name = lower_exec(&trim_exec(&name));
            let value = trim_exec(&value);
            Some((string_of(&name), string_of(&value)))
        },
        None => None,
    }
}

impl Request {
    /// Parses the bytes of an HTTP/1.1 request.
    #[verifier::spinoff_prover]
    pub fn parse(bytes: &[u8]) -> (r: Result<Self, String>)
        ensures
            match r {
                Ok(req) => parse_request(bytes@) == Ok::<RequestModel, Seq<char>>(req@),
                Err(e) => parse_request(bytes@) == Err::<RequestModel, Seq<char>>(e@),
            },
    {
        let text = match str_from_utf8(bytes) {
            Some(t) => t,
            None => return Err(owned("non-utf8 request")),
        };
        let v = chars_of(text);
        let sep = vec!['\r', '\n', '\r', '\n'];
        assert(sep@ =~= head_separator());
        let found = find_exec(&v, &sep);
        let at = match found {
            Some(i) => i,
            None => return Err(owned("missing header/body separator")),
        };
        proof {
            lemma_find(v@, head_separator());
            assert(head_separator().len() == 4);
            let j = find(v@, sep@)->0;
            assert(find(v@, sep@) is Some);
            assert(0 <= j && j + 4 <= v@.len());
            assert(found == Some(j as usize));
            assert(at == j as usize);
            assert(at + 4 <= v.len());
        }
        let head = copy_range(&v, 0, at);
        assert(head@ =~= v@.take(at as int));
        let body = string_of_range(&v, at + 4, v.len());
        assert(body@ =~= v@.skip(at + 4));
        let crlf_pat = vec!['\r', '\n'];
        assert(crlf_pat@ =~= crlf());
        let lines = split_ranges(&head, &crlf_pat);
        let ghost line_seq = split(head@, crlf());
        proof {
            lemma_split_nonempty(head@, crlf());
            assert(range_holds(head@, lines@[0], line_seq[0]));
        }
        let first = copy_range(&head, lines[0].0, lines[0].1);
        let space = vec![' '];
        assert(space@ =~= one(' '));
        let parts = split_ranges(&first, &space);
        proof {
            lemma_split_nonempty(first@, one(' '));
            assert(range_holds(first@, parts@[0], split(first@, one(' '))[0]));
        }
        let method = string_of_range(&first, parts[0].0, parts[0].1);
        let target: Vec<char> = if parts.len() > 1 {
            assert(range_holds(first@, parts@[1], split(first@, one(' '))[1]));
            copy_range(&first, parts[1].0, parts[1].1)
        } else {
            chars_of("/")
        };
        assert(target@ == request_target(first@));
        let (path_raw, query_str) = match find_char(&target, '?') {
            Some(i) => {
                proof {
                    lemma_find(target@, one('?'));
                }
                assert(i < target.len());
                let p = string_of_range(&target, 0, i);
                let q = string_of_range(&target, i + 1, target.len());
                assert(p@ =~= target@.take(i as int));
                assert(q@ =~= target@.skip(i + 1));
                (p, q)
            },
            None => (string_of(&target), String::new()),
        };
        let mut headers = FieldMap::new();
        let mut i: usize = 1;
        assert(line_seq.subrange(1, 1) =~= Seq::<Seq<char>>::empty());
        while i < lines.len()
            invariant
                1 <= i <= lines.len(),
                ranges_match(head@, lines@, line_seq),
                headers@ == header_fold(line_seq.subrange(1, i as int)),
            decreases lines.len() - i,
        {
            assert(range_holds(head@, lines@[i as int], line_seq[i as int]));
            let line = copy_range(&head, lines[i].0, lines[i].1);
            assert(line_seq.subrange(1, i + 1).drop_last() =~= line_seq.subrange(1, i as int));
            assert(line_seq.subrange(1, i + 1).last() == line@);
            match header_line(&line) {
                Some((name, value)) => {
                    headers.insert(name, value);
                },
                None => {},
            }
            i = i + 1;
        }
        assert(line_seq.subrange(1, lines.len() as int) =~= line_seq.drop_first());
        let path = url_decode(path_raw.as_str());
        let query = parse_form(query_str.as_str());
        Ok(Request { method, path, query, headers, body })
    }

    /// The fields of the form in the request body.
    pub fn form(&self) -> (m: FieldMap)
        ensures
            m@ == form_map(self.body@),
    {
        parse_form(self.body.as_str())
    }

    /// The value of a header, whatever the case of `name`.
    pub fn header(&self, name: &str) -> (r: Option<&String>)
        ensures
            match r {
                Some(v) => self.headers@.contains_key(lower(name@)) && self.headers@[lower(
                    name@,
                )] == v@,
                None => !self.headers@.contains_key(lower(name@)),
            },
    {
        let lowered = string_of(&lower_exec(&chars_of(name)));
        self.headers.get(lowered.as_str())
    }
}

// ---------------------------------------------------------------------
// A bare GET
// ---------------------------------------------------------------------

/// The bytes of a bare `GET` of a request target: the request line and the
/// blank line, no headers, no body; what a browser's request for a link
/// reduces to once its headers are left out.
pub open spec fn bare_get(target: Seq<char>) -> Seq<u8> {
    encode_utf8("GET "@ + target + " HTTP/1.1\r\n\r\n"@)
}

/// `c` occurs in neither part, so not in the two together.
pub proof fn lemma_lacks_concat(a: Seq<char>, b: Seq<char>, c: char)
    requires
        crate::text::lacks(a, c),
        crate::text::lacks(b, c),
    ensures
        crate::text::lacks(a + b, c),
{
    assert forall|i: int| 0 <= i < (a + b).len() implies #[trigger] (a + b)[i] != c by {
        if i < a.len() {
            assert((a + b)[i] == a[i]);
        } else {
            assert((a + b)[i] == b[i - a.len()]);
        }
    }
}

/// A bare `GET` of a target without spaces or carriage returns parses to a
/// `GET` of the target's decoded path, with the target's query fields, no
/// headers and an empty body.
#[verifier::spinoff_prover]
pub proof fn lemma_parse_bare_get(target: Seq<char>)
    requires
        crate::text::lacks(target, ' '),
        crate::text::lacks(target, '\r'),
    ensures
        parse_request(bare_get(target)) == Ok::<RequestModel, Seq<char>>(
            RequestModel {
                method: "GET"@,
                path: url_decoded(target_path(target)),
                query: form_map(target_query(target)),
                headers: Map::empty(),
                body: Seq::empty(),
            },
        ),
{
    reveal_strlit("GET ");
    reveal_strlit(" HTTP/1.1\r\n\r\n");
    reveal_strlit("GET");
    reveal_strlit("HTTP/1.1");
    let get = "GET"@;
    let version = "HTTP/1.1"@;
    let line = get + one(' ') + (target + one(' ') + version);
    let text = "GET "@ + target + " HTTP/1.1\r\n\r\n"@;
    assert(text =~= line + head_separator());
    assert(decode_utf8(encode_utf8(text)) == text);
    assert(crate::text::lacks(line, '\r')) by {
        assert forall|i: int| 0 <= i < line.len() implies #[trigger] line[i] != '\r' by {
            if 4 <= i < 4 + target.len() {
                assert(line[i] == target[i - 4]);
            }
        }
    }
    lemma_find(text, head_separator());
    let n = line.len() as int;
    assert(text.subrange(n, n + 4) =~= head_separator());
    assert(crate::text::match_at(text, head_separator(), n));
    match find(text, head_separator()) {
        Some(j) => {
            if j < n {
                assert(text.subrange(j, j + 4)[0] == '\r');
                assert(text[j] == line[j]);
            }
            assert(j == n);
        },
        None => {},
    }
    assert(text.take(n) =~= line);
    assert(text.skip(n + 4) =~= Seq::<char>::empty());
    lemma_find(line, crlf());
    match find(line, crlf()) {
        Some(j) => {
            assert(line.subrange(j, j + 2)[0] == '\r');
            assert(line[j] == '\r');
        },
        None => {},
    }
    assert(split(line, crlf()) == seq![line]);
    assert(seq![line].drop_first() =~= Seq::<Seq<char>>::empty());
    assert(crate::text::lacks(get, ' '));
    assert(crate::text::lacks(version, ' '));
    crate::text::lemma_split_first(get, ' ', target + one(' ') + version);
    crate::text::lemma_split_first(target, ' ', version);
    crate::text::lemma_split_absent(version, ' ');
    assert(split(line, one(' ')) =~= seq![get, target, version]);
    assert(request_target(line) == target);
}

} // verus!
