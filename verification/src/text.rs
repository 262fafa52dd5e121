//! Character-sequence helpers shared by the parsers and renderers: search,
//! splitting, trimming, ASCII case folding, decimal numbers.

use vstd::prelude::*;
use vstd::utf8::*;

verus! {

// ---------------------------------------------------------------------
// UTF-8
// ---------------------------------------------------------------------

/// `String::from_utf8`: the bytes as a string, when they are valid UTF-8.
#[verifier::external_body]
pub(crate) fn string_from_utf8(bytes: Vec<u8>) -> (r: Option<String>)
    ensures
        r is Some <==> valid_utf8(bytes@),
        r matches Some(s) ==> s@ == decode_utf8(bytes@),
{
    String::from_utf8(bytes).ok()
}

/// `core::str::from_utf8`: the bytes as a string slice, when they are valid UTF-8.
#[verifier::external_body]
pub(crate) fn str_from_utf8(bytes: &[u8]) -> (r: Option<&str>)
    ensures
        r is Some <==> valid_utf8(bytes@),
        r matches Some(s) ==> s@ == decode_utf8(bytes@),
{
    core::str::from_utf8(bytes).ok()
}

/// The UTF-8 encoding of a string slice, as an owned vector.
pub fn bytes_of(s: &str) -> (b: Vec<u8>)
    ensures
        b@ == encode_utf8(s@),
{
    vstd::slice::slice_to_vec(s.as_bytes())
}

// ---------------------------------------------------------------------
// Searching and splitting
// ---------------------------------------------------------------------

/// `p` occurs in `s` starting at index `i`.
pub open spec fn match_at(s: Seq<char>, p: Seq<char>, i: int) -> bool {
    0 <= i && i + p.len() <= s.len() && s.subrange(i, i + p.len()) == p
}

/// The first index `>= i` at which `p` occurs in `s`.
pub open spec fn find_from(s: Seq<char>, p: Seq<char>, i: int) -> Option<int>
    decreases s.len() + 1 - i,
{
    if i < 0 || i + p.len() > s.len() {
        None
    } else if match_at(s, p, i) {
        Some(i)
    } else {
        find_from(s, p, i + 1)
    }
}

/// The first index at which `p` occurs in `s` (`str::find`).
pub open spec fn find(s: Seq<char>, p: Seq<char>) -> Option<int> {
    find_from(s, p, 0)
}

/// What `find_from` returns is the first occurrence at or after `i`.
pub proof fn lemma_find_from(s: Seq<char>, p: Seq<char>, i: int)
    requires
        0 <= i,
    ensures
        match find_from(s, p, i) {
            Some(j) => i <= j && match_at(s, p, j) && forall|k: int|
                i <= k < j ==> !match_at(s, p, k),
            None => forall|k: int| i <= k ==> !match_at(s, p, k),
        },
    decreases s.len() + 1 - i,
{
    if i + p.len() > s.len() {
    } else if match_at(s, p, i) {
    } else {
        lemma_find_from(s, p, i + 1);
    }
}

/// What `find` returns is the first occurrence.
pub proof fn lemma_find(s: Seq<char>, p: Seq<char>)
    ensures
        match find(s, p) {
            Some(j) => 0 <= j && j + p.len() <= s.len() && s.subrange(j, j + p.len()) == p
                && forall|k: int| 0 <= k < j ==> !match_at(s, p, k),
            None => forall|k: int| 0 <= k ==> !match_at(s, p, k),
        },
{
    lemma_find_from(s, p, 0);
}

/// The pieces of `s` between the occurrences of `p` (`str::split`); there is
/// always at least one piece.
pub open spec fn split(s: Seq<char>, p: Seq<char>) -> Seq<Seq<char>>
    decreases s.len(),
{
    match find(s, p) {
        Some(i) => if 0 <= i && i + p.len() <= s.len() && p.len() > 0 {
            seq![s.take(i)] + split(s.skip(i + p.len()), p)
        } else {
            seq![s]
        },
        None => seq![s],
    }
}

/// `split` always yields at least one piece.
pub proof fn lemma_split_nonempty(s: Seq<char>, p: Seq<char>)
    ensures
        split(s, p).len() >= 1,
{
}

/// `c` does not occur in `s`.
pub open spec fn lacks(s: Seq<char>, c: char) -> bool {
    forall|i: int| 0 <= i < s.len() ==> #[trigger] s[i] != c
}

/// Text without `c` holds no occurrence of it, and is one piece when split on it.
pub proof fn lemma_split_absent(s: Seq<char>, c: char)
    requires
        lacks(s, c),
    ensures
        find(s, one(c)) is None,
        split(s, one(c)) == seq![s],
{
    lemma_find(s, one(c));
    match find(s, one(c)) {
        Some(j) => {
            assert(s.subrange(j, j + 1)[0] == one(c)[0]);
            assert(s[j] == c);
        },
        None => {},
    }
}

/// Splitting on `c` a text that starts with a piece without `c` and then `c`
/// gives that piece, then the pieces of the rest.
pub proof fn lemma_split_first(a: Seq<char>, c: char, b: Seq<char>)
    requires
        lacks(a, c),
    ensures
        find(a + one(c) + b, one(c)) == Some(a.len() as int),
        split(a + one(c) + b, one(c)) == seq![a] + split(b, one(c)),
{
    let s = a + one(c) + b;
    lemma_find(s, one(c));
    assert(s.subrange(a.len() as int, a.len() + 1int) =~= one(c));
    assert(match_at(s, one(c), a.len() as int));
    match find(s, one(c)) {
        Some(j) => {
            if j < a.len() {
                assert(s.subrange(j, j + 1)[0] == one(c)[0]);
                assert(s[j] == a[j]);
            }
        },
        None => {},
    }
    assert(s.take(a.len() as int) =~= a);
    assert(s.skip(a.len() + 1int) =~= b);
}

/// `str::split_once`: the text before and after the first occurrence of `p`.
pub open spec fn split_once(s: Seq<char>, p: Seq<char>) -> Option<(Seq<char>, Seq<char>)> {
    match find(s, p) {
        Some(i) => Some((s.take(i), s.skip(i + p.len()))),
        None => None,
    }
}

/// The sequence of a single character.
pub open spec fn one(c: char) -> Seq<char> {
    seq![c]
}

/// `"\r\n"`.
pub open spec fn crlf() -> Seq<char> {
    seq!['\r', '\n']
}

/// A copy of `v[lo..hi]`.
pub fn copy_range(v: &Vec<char>, lo: usize, hi: usize) -> (r: Vec<char>)
    requires
        lo <= hi <= v.len(),
    ensures
        r@ == v@.subrange(lo as int, hi as int),
{
    let mut r: Vec<char> = Vec::new();
    let mut i = lo;
    while i < hi
        invariant
            lo <= i <= hi <= v.len(),
            r@ == v@.subrange(lo as int, i as int),
        decreases hi - i,
    {
        r.push(v[i]);
        i = i + 1;
        assert(r@ =~= v@.subrange(lo as int, i as int));
    }
    r
}

/// Whether `pat` occurs in `v` at index `at`.
fn matches_at(v: &Vec<char>, at: usize, pat: &Vec<char>) -> (b: bool)
    requires
        at + pat.len() <= v.len(),
    ensures
        b == match_at(v@, pat@, at as int),
{
    let mut k: usize = 0;
    while k < pat.len()
        invariant
            at + pat.len() <= v.len(),
            k <= pat.len(),
            forall|j: int| 0 <= j < k ==> v@[at + j] == pat@[j],
        decreases pat.len() - k,
    {
        if v[at + k] != pat[k] {
            assert(v@.subrange(at as int, at + pat.len())[k as int] != pat@[k as int]);
            return false;
        }
        k = k + 1;
    }
    assert(v@.subrange(at as int, at + pat.len()) =~= pat@);
    true
}

/// The first occurrence of `pat` in `v` at or after `start`.
pub fn find_from_exec(v: &Vec<char>, start: usize, pat: &Vec<char>) -> (r: Option<usize>)
    requires
        start <= v.len(),
    ensures
        match find_from(v@, pat@, start as int) {
            Some(j) => r == Some(j as usize),
            None => r is None,
        },
{
    let mut j = start;
    if pat.len() == 0 {
        assert(match_at(v@, pat@, start as int)) by {
            assert(v@.subrange(start as int, start as int) =~= pat@);
        }
        return Some(start);
    }
    if pat.len() > v.len() {
        return None;
    }
    while j <= v.len() - pat.len()
        invariant
            start <= j <= v.len(),
            0 < pat.len() <= v.len(),
            find_from(v@, pat@, start as int) == find_from(v@, pat@, j as int),
        decreases v.len() - j,
    {
        if matches_at(v, j, pat) {
            return Some(j);
        }
        j = j + 1;
    }
    None
}

/// The first occurrence of `pat` in `v` (`str::find`).
pub fn find_exec(v: &Vec<char>, pat: &Vec<char>) -> (r: Option<usize>)
    ensures
        match find(v@, pat@) {
            Some(j) => r == Some(j as usize),
            None => r is None,
        },
{
    find_from_exec(v, 0, pat)
}

/// The first occurrence of the character `c` in `v`.
pub fn find_char(v: &Vec<char>, c: char) -> (r: Option<usize>)
    ensures
        match find(v@, one(c)) {
            Some(j) => r == Some(j as usize),
            None => r is None,
        },
{
    let pat = vec![c];
    assert(pat@ =~= one(c));
    find_exec(v, &pat)
}

/// `rg` is an index range of `v` whose contents are `piece`.
pub open spec fn range_holds(v: Seq<char>, rg: (usize, usize), piece: Seq<char>) -> bool {
    rg.0 <= rg.1 <= v.len() && v.subrange(rg.0 as int, rg.1 as int) == piece
}

/// `r` lists index ranges of `v` whose contents are the pieces `d`.
pub open spec fn ranges_match(v: Seq<char>, r: Seq<(usize, usize)>, d: Seq<Seq<char>>) -> bool {
    &&& r.len() == d.len()
    &&& forall|i: int| 0 <= i < r.len() ==> #[trigger] range_holds(v, r[i], d[i])
}

proof fn lemma_ranges_push(
    v: Seq<char>,
    r: Seq<(usize, usize)>,
    d: Seq<Seq<char>>,
    lo: usize,
    hi: usize,
    piece: Seq<char>,
)
    requires
        ranges_match(v, r, d),
        lo <= hi <= v.len(),
        v.subrange(lo as int, hi as int) == piece,
    ensures
        ranges_match(v, r.push((lo, hi)), d.push(piece)),
{
    let r2 = r.push((lo, hi));
    let d2 = d.push(piece);
    assert forall|i: int| 0 <= i < r2.len() implies #[trigger] range_holds(v, r2[i], d2[i]) by {
        if i < r.len() {
            assert(r2[i] == r[i]);
            assert(d2[i] == d[i]);
            assert(range_holds(v, r[i], d[i]));
        }
    }
}

/// The index ranges of the pieces of `split(v, pat)`.
pub fn split_ranges(v: &Vec<char>, pat: &Vec<char>) -> (r: Vec<(usize, usize)>)
    requires
        pat.len() > 0,
    ensures
        ranges_match(v@, r@, split(v@, pat@)),
{
    let mut r: Vec<(usize, usize)> = Vec::new();
    let mut pos: usize = 0;
    let ghost mut done: Seq<Seq<char>> = Seq::empty();
    assert(v@.skip(0) =~= v@);
    loop
        invariant
            pat.len() > 0,
            pos <= v.len(),
            split(v@, pat@) == done + split(v@.skip(pos as int), pat@),
            ranges_match(v@, r@, done),
        decreases v.len() - pos,
    {
        let ghost rest = v@.skip(pos as int);
        let found = find_from_exec(v, pos, pat);
        proof {
            lemma_find_from(v@, pat@, pos as int);
            lemma_find(rest, pat@);
            lemma_find_shift(v@, pat@, pos as int);
        }
        match found {
            Some(j) => {
                let ghost piece = rest.take(j - pos);
                assert(piece =~= v@.subrange(pos as int, j as int));
                assert(rest.skip(j - pos + pat.len()) =~= v@.skip(j + pat.len()));
                assert(split(rest, pat@) == seq![piece] + split(
                    rest.skip(j - pos + pat.len()),
                    pat@,
                ));
                proof {
                    lemma_ranges_push(v@, r@, done, pos, j, piece);
                    assert(done + split(rest, pat@) =~= done.push(piece) + split(
                        v@.skip(j + pat.len()),
                        pat@,
                    ));
                    done = done.push(piece);
                }
                r.push((pos, j));
                pos = j + pat.len();
            },
            None => {
                assert(split(rest, pat@) == seq![rest]);
                assert(rest =~= v@.subrange(pos as int, v.len() as int));
                proof {
                    lemma_ranges_push(v@, r@, done, pos, v.len(), rest);
                    assert(done + split(rest, pat@) =~= done.push(rest));
                    done = done.push(rest);
                }
                r.push((pos, v.len()));
                return r;
            },
        }
    }
}

/// Searching a suffix is searching the whole sequence from the suffix's start.
pub proof fn lemma_find_shift(s: Seq<char>, p: Seq<char>, start: int)
    requires
        0 <= start <= s.len(),
    ensures
        match find(s.skip(start), p) {
            Some(j) => find_from(s, p, start) == Some(start + j),
            None => find_from(s, p, start) is None,
        },
{
    lemma_find_from(s, p, start);
    lemma_find(s.skip(start), p);
    assert forall|k: int| 0 <= k implies match_at(s.skip(start), p, k) == match_at(
        s,
        p,
        start + k,
    ) by {
        if 0 <= k && k + p.len() <= s.len() - start {
            assert(s.skip(start).subrange(k, k + p.len()) =~= s.subrange(
                start + k,
                start + k + p.len(),
            ));
        }
    }
    match find(s.skip(start), p) {
        Some(j) => {
            assert(match_at(s.skip(start), p, j));
            assert(match_at(s, p, start + j));
            match find_from(s, p, start) {
                Some(m) => {
                    assert(!match_at(s.skip(start), p, m - start) || m - start >= j);
                },
                None => {},
            }
        },
        None => {
            match find_from(s, p, start) {
                Some(m) => {
                    assert(match_at(s.skip(start), p, m - start));
                },
                None => {},
            }
        },
    }
}

/// The last index at which `c` occurs in `s` (`str::rfind`).
pub open spec fn rfind_char(s: Seq<char>, c: char) -> Option<int>
    decreases s.len(),
{
    if s.len() == 0 {
        None
    } else if s.last() == c {
        Some(s.len() - 1)
    } else {
        rfind_char(s.drop_last(), c)
    }
}

/// Exec version of `rfind_char`.
pub fn rfind_char_exec(v: &Vec<char>, c: char) -> (r: Option<usize>)
    ensures
        match rfind_char(v@, c) {
            Some(j) => r == Some(j as usize) && 0 <= j < v.len() && v@[j] == c,
            None => r is None,
        },
{
    let mut i: usize = v.len();
    assert(v@.take(i as int) =~= v@);
    while i > 0
        invariant
            i <= v.len(),
            rfind_char(v@, c) == rfind_char(v@.take(i as int), c),
        decreases i,
    {
        if v[i - 1] == c {
            return Some(i - 1);
        }
        assert(v@.take(i as int).drop_last() =~= v@.take(i - 1));
        i = i - 1;
    }
    None
}

// ---------------------------------------------------------------------
// Building strings
// ---------------------------------------------------------------------

/// Appends one character to a string (`String::push`).
#[verifier::external_body]
pub(crate) fn push_char(s: &mut String, c: char)
    ensures
        final(s)@ == old(s)@.push(c),
{
    s.push(c);
}

/// Appends a string slice to a string.
pub fn push_str(s: &mut String, t: &str)
    ensures
        final(s)@ == old(s)@ + t@,
{
    s.append(t);
}

/// Appends a value between an opening and a closing text, as one piece.
pub fn push_group(s: &mut String, open: &str, value: &str, close: &str)
    ensures
        final(s)@ == old(s)@ + (open@ + value@ + close@),
{
    let ghost before = s@;
    push_str(s, open);
    push_str(s, value);
    push_str(s, close);
    assert(s@ =~= before + (open@ + value@ + close@));
}

/// The characters of a string slice, in order.
pub fn chars_of(s: &str) -> (v: Vec<char>)
    ensures
        v@ == s@,
{
    let mut v: Vec<char> = Vec::new();
    for c in it: s.chars()
        invariant
            v@ == it.seq().take(it.index() as int),
    {
        v.push(c);
    }
    v
}

/// The string made of the characters in `v`.
pub fn string_of(v: &Vec<char>) -> (s: String)
    ensures
        s@ == v@,
{
    let mut s = String::new();
    let mut i: usize = 0;
    while i < v.len()
        invariant
            i <= v.len(),
            s@ == v@.take(i as int),
        decreases v.len() - i,
    {
        push_char(&mut s, v[i]);
        i = i + 1;
        assert(s@ =~= v@.take(i as int));
    }
    assert(v@.take(v.len() as int) =~= v@);
    s
}

/// The string of `v[lo..hi]`.
pub fn string_of_range(v: &Vec<char>, lo: usize, hi: usize) -> (s: String)
    requires
        lo <= hi <= v.len(),
    ensures
        s@ == v@.subrange(lo as int, hi as int),
{
    let r = copy_range(v, lo, hi);
    string_of(&r)
}

/// A string literal as an owned string.
pub fn owned(t: &str) -> (s: String)
    ensures
        s@ == t@,
{
    let mut s = String::new();
    push_str(&mut s, t);
    s
}

/// Whether two character sequences are equal.
pub fn chars_eq(a: &Vec<char>, b: &Vec<char>) -> (r: bool)
    ensures
        r == (a@ == b@),
{
    if a.len() != b.len() {
        return false;
    }
    let mut i: usize = 0;
    while i < a.len()
        invariant
            a.len() == b.len(),
            i <= a.len(),
            forall|j: int| 0 <= j < i ==> a@[j] == b@[j],
        decreases a.len() - i,
    {
        if a[i] != b[i] {
            return false;
        }
        i = i + 1;
    }
    assert(a@ =~= b@);
    true
}

/// Whether a string equals a string literal.
pub fn str_eq(a: &str, b: &str) -> (r: bool)
    ensures
        r == (a@ == b@),
{
    let va = chars_of(a);
    let vb = chars_of(b);
    chars_eq(&va, &vb)
}

// ---------------------------------------------------------------------
// Whitespace and ASCII case
// ---------------------------------------------------------------------

/// The characters with the Unicode `White_Space` property (`char::is_whitespace`).
#[verifier::opaque]
pub open spec fn is_ws(c: char) -> bool {
    ||| '\t' <= c <= '\r'
    ||| c == ' '
    ||| c == '\u{85}'
    ||| c == '\u{a0}'
    ||| c == '\u{1680}'
    ||| '\u{2000}' <= c <= '\u{200a}'
    ||| c == '\u{2028}'
    ||| c == '\u{2029}'
    ||| c == '\u{202f}'
    ||| c == '\u{205f}'
    ||| c == '\u{3000}'
}

/// `s` without its leading whitespace.
pub open spec fn trim_start(s: Seq<char>) -> Seq<char>
    decreases s.len(),
{
    if s.len() > 0 && is_ws(s[0]) {
        trim_start(s.drop_first())
    } else {
        s
    }
}

/// `s` without its trailing whitespace.
pub open spec fn trim_end(s: Seq<char>) -> Seq<char>
    decreases s.len(),
{
    if s.len() > 0 && is_ws(s.last()) {
        trim_end(s.drop_last())
    } else {
        s
    }
}

/// `str::trim`: `s` without leading and trailing whitespace.
pub open spec fn trim(s: Seq<char>) -> Seq<char> {
    trim_end(trim_start(s))
}

/// Exec version of `is_ws`.
pub fn is_ws_exec(c: char) -> (b: bool)
    ensures
        b == is_ws(c),
{
    reveal(is_ws);
    ('\t' <= c && c <= '\r') || c == ' ' || c == '\u{85}' || c == '\u{a0}' || c == '\u{1680}'
        || ('\u{2000}' <= c && c <= '\u{200a}') || c == '\u{2028}' || c == '\u{2029}' || c
        == '\u{202f}' || c == '\u{205f}' || c == '\u{3000}'
}

/// `v` with leading and trailing whitespace removed.
pub fn trim_exec(v: &Vec<char>) -> (r: Vec<char>)
    ensures
        r@ == trim(v@),
{
    let mut lo: usize = 0;
    assert(v@.subrange(0, v.len() as int) =~= v@);
    while lo < v.len() && is_ws_exec(v[lo])
        invariant
            lo <= v.len(),
            trim_start(v@) == trim_start(v@.subrange(lo as int, v.len() as int)),
        decreases v.len() - lo,
    {
        assert(v@.subrange(lo as int, v.len() as int).drop_first() =~= v@.subrange(
            lo + 1,
            v.len() as int,
        ));
        lo = lo + 1;
    }
    assert(trim_start(v@) == v@.subrange(lo as int, v.len() as int));
    let mut hi: usize = v.len();
    while hi > lo && is_ws_exec(v[hi - 1])
        invariant
            lo <= hi <= v.len(),
            trim(v@) == trim_end(v@.subrange(lo as int, hi as int)),
        decreases hi,
    {
        assert(v@.subrange(lo as int, hi as int).drop_last() =~= v@.subrange(
            lo as int,
            hi - 1,
        ));
        hi = hi - 1;
    }
    copy_range(v, lo, hi)
}

/// `char::to_ascii_lowercase`.
pub open spec fn lower_char(c: char) -> char {
    if 'A' <= c <= 'Z' {
        ((c as u32) + 32) as char
    } else {
        c
    }
}

/// `str::to_ascii_lowercase`.
pub open spec fn lower(s: Seq<char>) -> Seq<char> {
    s.map_values(|c: char| lower_char(c))
}

/// Exec version of `lower`.
pub fn lower_exec(v: &Vec<char>) -> (r: Vec<char>)
    ensures
        r@ == lower(v@),
{
    let mut r: Vec<char> = Vec::new();
    let mut i: usize = 0;
    while i < v.len()
        invariant
            i <= v.len(),
            r@ == lower(v@.take(i as int)),
        decreases v.len() - i,
    {
        let c = v[i];
        let d = if 'A' <= c && c <= 'Z' {
            ((c as u8) + 32) as char
        } else {
            c
        };
        assert(d == lower_char(c));
        r.push(d);
        i = i + 1;
        assert(lower(v@.take(i as int)) =~= lower(v@.take(i - 1)).push(lower_char(v@[i - 1])));
    }
    assert(v@.take(v.len() as int) =~= v@);
    r
}

// ---------------------------------------------------------------------
// Decimal numbers
// ---------------------------------------------------------------------

/// The ASCII digit for `d < 10`.
pub open spec fn digit_char(d: nat) -> char {
    (('0' as nat) + d) as char
}

/// Decimal notation of `n`, as `Display` writes it.
pub open spec fn decimal(n: nat) -> Seq<char>
    decreases n,
{
    if n < 10 {
        seq![digit_char(n)]
    } else {
        decimal(n / 10).push(digit_char(n % 10))
    }
}

/// Appends the decimal notation of `n`.
pub fn push_decimal(s: &mut String, n: u64)
    ensures
        final(s)@ == old(s)@ + decimal(n as nat),
    decreases n,
{
    if n >= 10 {
        push_decimal(s, n / 10);
    }
    let d = (n % 10) as u8;
    let c = ('0' as u8 + d) as char;
    assert(c == digit_char((n % 10) as nat));
    push_char(s, c);
}

/// Decimal notation of `n`.
pub fn decimal_string(n: u64) -> (s: String)
    ensures
        s@ == decimal(n as nat),
{
    let mut s = String::new();
    push_decimal(&mut s, n);
    s
}

/// The character is an ASCII digit.
pub open spec fn is_digit(c: char) -> bool {
    '0' <= c <= '9'
}

/// The value of a sequence of ASCII digits.
pub open spec fn digits_value(s: Seq<char>) -> nat
    decreases s.len(),
{
    if s.len() == 0 {
        0
    } else {
        digits_value(s.drop_last()) * 10 + ((s.last() as nat) - ('0' as nat)) as nat
    }
}

/// The digits after an optional leading `+`.
pub open spec fn unsigned_digits(s: Seq<char>) -> Seq<char> {
    if s.len() > 0 && s[0] == '+' {
        s.drop_first()
    } else {
        s
    }
}

/// `str::parse` for an unsigned integer type whose largest value is `max`:
/// an optional `+` and then at least one ASCII digit, of value at most `max`.
pub open spec fn parse_unsigned(s: Seq<char>, max: nat) -> Option<nat> {
    let d = unsigned_digits(s);
    if d.len() > 0 && (forall|i: int| 0 <= i < d.len() ==> is_digit(#[trigger] d[i]))
        && digits_value(d) <= max {
        Some(digits_value(d))
    } else {
        None
    }
}

/// The value of a digit string is at least the value of any prefix.
proof fn lemma_digits_value_prefix(s: Seq<char>, k: int)
    requires
        0 <= k <= s.len(),
        forall|i: int| 0 <= i < s.len() ==> is_digit(#[trigger] s[i]),
    ensures
        digits_value(s.take(k)) <= digits_value(s),
    decreases s.len() - k,
{
    if k < s.len() {
        lemma_digits_value_prefix(s, k + 1);
        assert(s.take(k + 1).drop_last() =~= s.take(k));
    }
    assert(s.take(s.len() as int) =~= s);
}

/// The decimal notation of `n` is a non-empty run of digits whose value is `n`.
pub proof fn lemma_decimal_digits(n: nat)
    ensures
        decimal(n).len() > 0,
        forall|i: int| 0 <= i < decimal(n).len() ==> is_digit(#[trigger] decimal(n)[i]),
        digits_value(decimal(n)) == n,
    decreases n,
{
    let s = decimal(n);
    let d = n % 10;
    assert((digit_char(d) as nat) == 48 + d);
    if n >= 10 {
        lemma_decimal_digits(n / 10);
        assert(s.drop_last() =~= decimal(n / 10));
        assert(s.last() == digit_char(d));
        assert(('0' as nat) == 48);
        assert(digits_value(s) == digits_value(s.drop_last()) * 10 + d);
        assert((n / 10) * 10 + d == n);
        assert forall|i: int| 0 <= i < s.len() implies is_digit(#[trigger] s[i]) by {
            if i < s.len() - 1 {
                assert(s[i] == decimal(n / 10)[i]);
            }
        }
    } else {
        assert(s.drop_last() =~= Seq::<char>::empty());
        assert(('0' as nat) == 48);
        assert(s.last() == digit_char(d));
        assert(digits_value(s) == digits_value(s.drop_last()) * 10 + d);
    }
}

/// `str::parse` reads back the decimal notation of a number in range.
pub proof fn lemma_parse_decimal(n: nat, max: nat)
    requires
        n <= max,
    ensures
        parse_unsigned(decimal(n), max) == Some(n),
{
    lemma_decimal_digits(n);
    assert(decimal(n)[0] != '+') by {
        assert(is_digit(decimal(n)[0]));
    }
    assert(unsigned_digits(decimal(n)) == decimal(n));
}

/// Parses an unsigned number no larger than `max`.
pub fn parse_unsigned_exec(v: &Vec<char>, max: u64) -> (r: Option<u64>)
    requires
        max >= 9,
    ensures
        match parse_unsigned(v@, max as nat) {
            Some(n) => r == Some(n as u64),
            None => r is None,
        },
{
    let start: usize = if v.len() > 0 && v[0] == '+' {
        1
    } else {
        0
    };
    let ghost d = unsigned_digits(v@);
    assert(d =~= v@.skip(start as int));
    if start == v.len() {
        return None;
    }
    let mut acc: u64 = 0;
    let mut i: usize = start;
    while i < v.len()
        invariant
            start <= i <= v.len(),
            d == v@.skip(start as int),
            d == unsigned_digits(v@),
            forall|j: int| 0 <= j < i - start ==> is_digit(#[trigger] d[j]),
            acc as nat == digits_value(d.take(i - start)),
            acc <= max,
            max >= 9,
        decreases v.len() - i,
    {
        let c = v[i];
        assert(d[i - start] == c);
        if !('0' <= c && c <= '9') {
            assert(!is_digit(d[i - start]));
            assert(!is_digit(unsigned_digits(v@)[i - start]));
            assert(0 <= i - start < unsigned_digits(v@).len());
            return None;
        }
        let dv = ((c as u32) - ('0' as u32)) as u64;
        assert(dv <= 9);
        assert(d.take(i - start + 1).drop_last() =~= d.take(i - start));
        assert(d.take(i - start + 1).last() == c);
        if acc > (max - dv) / 10 {
            proof {
                assert(acc * 10 + dv > max) by (nonlinear_arith)
                    requires
                        acc > (max - dv) / 10,
                        dv <= 9,
                        max >= 9,
                ;
                if forall|j: int| 0 <= j < d.len() ==> is_digit(#[trigger] d[j]) {
                    lemma_digits_value_prefix(d, i - start + 1);
                }
            }
            return None;
        }
        assert(acc * 10 + dv <= max) by (nonlinear_arith)
            requires
                acc <= (max - dv) / 10,
                dv <= 9,
                max >= 9,
        ;
        acc = acc * 10 + dv;
        i = i + 1;
    }
    assert(d.take(v.len() - start) =~= d);
    Some(acc)
}

// ---------------------------------------------------------------------
// Counting
// ---------------------------------------------------------------------

/// How many times `c` occurs in `s`.
pub open spec fn count(s: Seq<char>, c: char) -> nat
    decreases s.len(),
{
    if s.len() == 0 {
        0
    } else {
        count(s.drop_last(), c) + if s.last() == c {
            1nat
        } else {
            0nat
        }
    }
}

/// The count in two texts put together is the sum of their counts.
pub broadcast proof fn lemma_count_concat(a: Seq<char>, b: Seq<char>, c: char)
    ensures
        #[trigger] count(a + b, c) == count(a, c) + count(b, c),
    decreases b.len(),
{
    if b.len() == 0 {
        assert(a + b =~= a);
    } else {
        lemma_count_concat(a, b.drop_last(), c);
        assert((a + b).drop_last() =~= a + b.drop_last());
        assert((a + b).last() == b.last());
    }
}

/// Text without `c` counts no `c`.
pub proof fn lemma_count_lacks(s: Seq<char>, c: char)
    requires
        lacks(s, c),
    ensures
        count(s, c) == 0,
    decreases s.len(),
{
    if s.len() > 0 {
        assert(lacks(s.drop_last(), c)) by {
            assert forall|i: int| 0 <= i < s.drop_last().len() implies #[trigger] s.drop_last()[i] != c by {
                assert(s.drop_last()[i] == s[i]);
            }
        }
        lemma_count_lacks(s.drop_last(), c);
        assert(s.last() == s[s.len() - 1]);
    }
}

// ---------------------------------------------------------------------
// Occurrences
// ---------------------------------------------------------------------

/// `t` occurs somewhere in `s`.
pub open spec fn occurs(s: Seq<char>, t: Seq<char>) -> bool {
    exists|i: int| #[trigger] match_at(s, t, i)
}

/// `t` occurs in `a + t + b` right after `a`.
pub proof fn lemma_match_in(a: Seq<char>, t: Seq<char>, b: Seq<char>)
    ensures
        match_at(a + t + b, t, a.len() as int),
        occurs(a + t + b, t),
{
    assert((a + t + b).subrange(a.len() as int, a.len() + t.len() as int) =~= t);
}

/// An occurrence in `s` is one in `a + s + b`, moved by the length of `a`.
pub proof fn lemma_match_shift(a: Seq<char>, s: Seq<char>, b: Seq<char>, t: Seq<char>, i: int)
    requires
        match_at(s, t, i),
    ensures
        match_at(a + s + b, t, a.len() + i),
{
    assert((a + s + b).subrange(a.len() + i, a.len() + i + t.len()) =~= s.subrange(i, i + t.len()));
}

/// What occurs in `s` occurs in `s` followed by anything.
pub broadcast proof fn lemma_occurs_after(s: Seq<char>, x: Seq<char>, t: Seq<char>)
    requires
        occurs(s, t),
    ensures
        #[trigger] occurs(s + x, t),
{
    let i = choose|i: int| match_at(s, t, i);
    lemma_match_shift(Seq::empty(), s, x, t, i);
    assert(Seq::<char>::empty() + s + x =~= s + x);
}

/// `t` occurs in anything that ends with it.
pub broadcast proof fn lemma_occurs_end(s: Seq<char>, t: Seq<char>)
    ensures
        #[trigger] occurs(s + t, t),
{
    lemma_match_in(s, t, Seq::empty());
    assert(s + t + Seq::<char>::empty() =~= s + t);
}

/// An occurrence at `i` in `s` is one at `i` in `s` followed by anything.
pub broadcast proof fn lemma_match_after(s: Seq<char>, x: Seq<char>, t: Seq<char>, i: int)
    requires
        match_at(s, t, i),
    ensures
        #[trigger] match_at(s + x, t, i),
{
    lemma_match_shift(Seq::empty(), s, x, t, i);
    assert(Seq::<char>::empty() + s + x =~= s + x);
}

} // verus!
