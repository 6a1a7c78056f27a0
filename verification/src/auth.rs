//! Microsoft account -> Minecraft session. The OAuth exchanges themselves go
//! over the network outside the library; here are the pieces of the flows
//! that decide: URL encoding of parameters, reading the browser's redirect,
//! the device-code polling decisions, the offline identity.

use vstd::prelude::*;

use crate::text::{
    first_line, first_line_end, find_in, lemma_find_char, next_word, push_char, split_on, split_once,
    split_ranges, str_eq, string_of, sub_vec, to_chars, words,
};
use vstd::utf8::{decode_utf8, encode_utf8, valid_utf8};

use crate::net::{sha256_digest, sha256_of, spec_hex, hex_encode};
use crate::text::{decimal, push_decimal, spec_decimal};

use base64::Engine;
use md5::Digest;

verus! {

broadcast use vstd::utf8::is_ascii_chars_encode_utf8;

/// Bytes sent as they are in a URL parameter (RFC 3986 "unreserved").
pub open spec fn unreserved(b: u8) -> bool {
    ||| 0x41 <= b <= 0x5a
    ||| 0x61 <= b <= 0x7a
    ||| 0x30 <= b <= 0x39
    ||| b == 0x2d
    ||| b == 0x5f
    ||| b == 0x2e
    ||| b == 0x7e
}

/// Upper-case hexadecimal digit of `n` (`n < 16`).
pub open spec fn upper_hex(n: u8) -> char {
    if n < 10 {
        (0x30 + n) as char
    } else {
        (0x41 + (n - 10)) as char
    }
}

/// How one byte is written: itself if unreserved, else `%XX`.
pub open spec fn encode_byte(b: u8) -> Seq<char> {
    if unreserved(b) {
        seq![b as char]
    } else {
        seq!['%', upper_hex(b >> 4u8), upper_hex(b & 0xfu8)]
    }
}

/// Percent-encoding of a byte sequence.
pub open spec fn spec_url_encode(bytes: Seq<u8>) -> Seq<char>
    decreases bytes.len(),
{
    if bytes.len() == 0 {
        Seq::empty()
    } else {
        encode_byte(bytes[0]) + spec_url_encode(bytes.drop_first())
    }
}

proof fn lemma_url_encode_concat(a: Seq<u8>, b: Seq<u8>)
    ensures
        spec_url_encode(a + b) == spec_url_encode(a) + spec_url_encode(b),
    decreases a.len(),
{
    if a.len() == 0 {
        assert(a + b =~= b);
    } else {
        assert((a + b).drop_first() =~= a.drop_first() + b);
        lemma_url_encode_concat(a.drop_first(), b);
    }
}

fn upper_hex_digit(n: u8) -> (c: char)
    requires
        n < 16,
    ensures
        c == upper_hex(n),
{
    if n < 10 {
        (0x30 + n) as char
    } else {
        (0x41 + (n - 10)) as char
    }
}

/// Percent-encodes the UTF-8 bytes of `s` (unreserved bytes stay as they
/// are), for a URL query parameter.
pub fn url_encode(s: &str) -> (r: String)
    ensures
        r@ == spec_url_encode(encode_utf8(s@)),
{
    let bytes = s.as_bytes();
    let mut out = String::new();
    let mut i: usize = 0;
    while i < bytes.len()
        invariant
            i <= bytes@.len(),
            bytes@ == encode_utf8(s@),
            out@ == spec_url_encode(bytes@.subrange(0, i as int)),
        decreases bytes.len() - i,
    {
        let b = bytes[i];
        let ghost before = out@;
        if (0x41 <= b && b <= 0x5a) || (0x61 <= b && b <= 0x7a) || (0x30 <= b && b <= 0x39) || b
            == 0x2d || b == 0x5f || b == 0x2e || b == 0x7e {
            push_char(&mut out, b as char);
        } else {
            push_char(&mut out, '%');
            assert(b >> 4u8 < 16 && b & 0xfu8 < 16) by (bit_vector);
            push_char(&mut out, upper_hex_digit(b >> 4));
            push_char(&mut out, upper_hex_digit(b & 0xf));
        }
        proof {
            let t = bytes@.subrange(0, i as int);
            assert(bytes@.subrange(0, i + 1) =~= t + seq![b]);
            lemma_url_encode_concat(t, seq![b]);
            assert(spec_url_encode(seq![b]) =~= encode_byte(b)) by {
                assert(seq![b].drop_first() =~= Seq::<u8>::empty());
                assert(spec_url_encode(Seq::<u8>::empty()) =~= Seq::<char>::empty());
                assert(seq![b][0] == b);
            }
            assert(out@ =~= before + encode_byte(b));
        }
        i = i + 1;
    }
    assert(bytes@.subrange(0, bytes@.len() as int) =~= bytes@);
    out
}

/// Value of an ASCII hexadecimal digit.
pub open spec fn hex_value(b: u8) -> Option<u8> {
    if 0x30 <= b <= 0x39 {
        Some((b - 0x30) as u8)
    } else if 0x61 <= b <= 0x66 {
        Some((b - 0x61 + 10) as u8)
    } else if 0x41 <= b <= 0x46 {
        Some((b - 0x41 + 10) as u8)
    } else {
        None
    }
}

/// `u8::from_str_radix` on the two bytes `x y`, base 16: two hexadecimal
/// digits, or a `+` sign and one digit.
pub open spec fn two_hex(x: u8, y: u8) -> Option<u8> {
    if x == 0x2b {
        hex_value(y)
    } else {
        match (hex_value(x), hex_value(y)) {
            (Some(h), Some(l)) => Some((h * 16 + l) as u8),
            _ => None,
        }
    }
}

/// Percent-decoding of bytes: `+` is a space, `%XX` the byte `XX`; a `%` not
/// followed by two digits is dropped when two bytes follow it, kept as it
/// is otherwise.
pub open spec fn spec_url_decode_bytes(b: Seq<u8>) -> Seq<u8>
    decreases b.len(),
{
    if b.len() == 0 {
        Seq::empty()
    } else if b[0] == 0x2b {
        seq![0x20u8] + spec_url_decode_bytes(b.drop_first())
    } else if b[0] == 0x25 && b.len() >= 3 {
        match two_hex(b[1], b[2]) {
            Some(v) => seq![v] + spec_url_decode_bytes(b.subrange(3, b.len() as int)),
            None => spec_url_decode_bytes(b.drop_first()),
        }
    } else {
        seq![b[0]] + spec_url_decode_bytes(b.drop_first())
    }
}

/// A UTF-8 continuation byte.
pub open spec fn is_continuation(b: u8) -> bool {
    0x80 <= b <= 0xbf
}

/// The decoding never cuts a character in two when it takes the two bytes
/// after a `%` (slicing the text there would panic).
pub open spec fn url_decode_safe(b: Seq<u8>) -> bool
    decreases b.len(),
{
    if b.len() == 0 {
        true
    } else if b[0] == 0x25 && b.len() >= 3 {
        &&& !(b.len() > 3 && is_continuation(b[3]))
        &&& match two_hex(b[1], b[2]) {
            Some(v) => url_decode_safe(b.subrange(3, b.len() as int)),
            None => url_decode_safe(b.drop_first()),
        }
    } else {
        url_decode_safe(b.drop_first())
    }
}

/// The text of bytes that may not be valid UTF-8, invalid sequences replaced
/// by U+FFFD (`String::from_utf8_lossy`).
pub uninterp spec fn lossy_utf8(bytes: Seq<u8>) -> Seq<char>;

/// `String::from_utf8_lossy`. Trusted: the result is named (`lossy_utf8`);
/// on valid UTF-8 it is the decoded text, as the documentation says.
#[verifier::external_body]
fn from_utf8_lossy(bytes: &[u8]) -> (s: String)
    ensures
        s@ == lossy_utf8(bytes@),
        valid_utf8(bytes@) ==> s@ == decode_utf8(bytes@),
{
    String::from_utf8_lossy(bytes).into_owned()
}

fn hex_value_of(b: u8) -> (r: Option<u8>)
    ensures
        r == hex_value(b),
{
    if 0x30 <= b && b <= 0x39 {
        Some(b - 0x30)
    } else if 0x61 <= b && b <= 0x66 {
        Some(b - 0x61 + 10)
    } else if 0x41 <= b && b <= 0x46 {
        Some(b - 0x41 + 10)
    } else {
        None
    }
}

fn two_hex_of(x: u8, y: u8) -> (r: Option<u8>)
    ensures
        r == two_hex(x, y),
{
    if x == 0x2b {
        hex_value_of(y)
    } else {
        match (hex_value_of(x), hex_value_of(y)) {
            (Some(h), Some(l)) => Some(h * 16 + l),
            _ => None,
        }
    }
}

/// Decodes a query parameter value: `+` is a space, `%XX` a byte; the bytes
/// are then read as UTF-8, invalid sequences replaced.
pub fn url_decode(s: &str) -> (r: String)
    requires
        url_decode_safe(encode_utf8(s@)),
    ensures
        r@ == lossy_utf8(spec_url_decode_bytes(encode_utf8(s@))),
        valid_utf8(spec_url_decode_bytes(encode_utf8(s@))) ==> r@ == decode_utf8(
            spec_url_decode_bytes(encode_utf8(s@)),
        ),
{
    let b = s.as_bytes();
    let n = b.len();
    let mut out: Vec<u8> = Vec::new();
    let mut i: usize = 0;
    assert(b@.subrange(0, n as int) =~= b@);
    assert(out@ + spec_url_decode_bytes(b@) =~= spec_url_decode_bytes(b@));
    while i < n
        invariant
            n == b@.len(),
            i <= n,
            url_decode_safe(b@.subrange(i as int, n as int)),
            out@ + spec_url_decode_bytes(b@.subrange(i as int, n as int)) == spec_url_decode_bytes(b@),
        decreases n - i,
    {
        let ghost rest = b@.subrange(i as int, n as int);
        if b[i] == 0x2b {
            out.push(0x20);
            assert(rest.drop_first() =~= b@.subrange(i + 1, n as int));
            assert(out@ + spec_url_decode_bytes(b@.subrange(i + 1, n as int)) =~= out@.drop_last()
                + spec_url_decode_bytes(rest));
            i = i + 1;
        } else if b[i] == 0x25 && n - i >= 3 {
            match two_hex_of(b[i + 1], b[i + 2]) {
                Some(v) => {
                    out.push(v);
                    assert(rest.subrange(3, rest.len() as int) =~= b@.subrange(i + 3, n as int));
                    assert(out@ + spec_url_decode_bytes(b@.subrange(i + 3, n as int))
                        =~= out@.drop_last() + spec_url_decode_bytes(rest));
                    i = i + 3;
                },
                None => {
                    assert(rest.drop_first() =~= b@.subrange(i + 1, n as int));
                    i = i + 1;
                },
            }
        } else {
            out.push(b[i]);
            assert(rest.drop_first() =~= b@.subrange(i + 1, n as int));
            assert(out@ + spec_url_decode_bytes(b@.subrange(i + 1, n as int)) =~= out@.drop_last()
                + spec_url_decode_bytes(rest));
            i = i + 1;
        }
    }
    assert(b@.subrange(n as int, n as int) =~= Seq::<u8>::empty());
    assert(out@ + Seq::<u8>::empty() =~= out@);
    from_utf8_lossy(out.as_slice())
}


/// The bytes of an ASCII text.
pub open spec fn ascii_bytes(cs: Seq<char>) -> Seq<u8> {
    Seq::new(cs.len(), |i: int| cs[i] as u8)
}

proof fn lemma_upper_hex(n: u8)
    requires
        n < 16,
    ensures
        (upper_hex(n) as u8) != 0x2b,
        (upper_hex(n) as u32) < 128,
        hex_value(upper_hex(n) as u8) == Some(n),
{
}

proof fn lemma_encode_ascii(bs: Seq<u8>)
    ensures
        vstd::utf8::is_ascii_chars(spec_url_encode(bs)),
        url_decode_safe(ascii_bytes(spec_url_encode(bs))),
        spec_url_decode_bytes(ascii_bytes(spec_url_encode(bs))) == bs,
    decreases bs.len(),
{
    if bs.len() == 0 {
        assert(ascii_bytes(spec_url_encode(bs)) =~= Seq::<u8>::empty());
    } else {
        let b0 = bs[0];
        let rest = bs.drop_first();
        lemma_encode_ascii(rest);
        let er = spec_url_encode(rest);
        let e = spec_url_encode(bs);
        let a = ascii_bytes(e);
        assert(e == encode_byte(b0) + er);
        if unreserved(b0) {
            assert(a[0] == b0);
            assert(a.drop_first() =~= ascii_bytes(er));
            assert(vstd::utf8::is_ascii_chars(e)) by {
                assert forall|i: int| 0 <= i < e.len() implies '\0' <= #[trigger] e[i] <= '\u{7f}' by {
                    if i > 0 {
                        assert(e[i] == er[i - 1]);
                    }
                }
            }
            assert(seq![b0] + bs.drop_first() =~= bs);
        } else {
            let h = b0 >> 4u8;
            let l = b0 & 0xfu8;
            assert(h < 16 && l < 16 && (h * 16 + l) as u8 == b0) by (bit_vector)
                requires
                    h == b0 >> 4u8,
                    l == b0 & 0xfu8,
            ;
            lemma_upper_hex(h);
            lemma_upper_hex(l);
            assert(a[0] == 0x25u8);
            assert(a[1] == upper_hex(h) as u8);
            assert(a[2] == upper_hex(l) as u8);
            assert(a.subrange(3, a.len() as int) =~= ascii_bytes(er));
            assert(vstd::utf8::is_ascii_chars(e)) by {
                assert forall|i: int| 0 <= i < e.len() implies '\0' <= #[trigger] e[i] <= '\u{7f}' by {
                    if i > 2 {
                        assert(e[i] == er[i - 3]);
                    }
                }
            }
            assert(a.len() > 3 ==> !is_continuation(a[3])) by {
                if a.len() > 3 {
                    assert(a[3] == er[0] as u8);
                }
            }
            assert(seq![b0] + bs.drop_first() =~= bs);
        }
    }
}

/// Decoding what `url_encode` produced gives back the encoded text, for
/// every string: the encoding is pure ASCII, the decoding safe, and the
/// bytes come back exactly.
pub proof fn lemma_url_roundtrip(s: Seq<char>)
    ensures
        url_decode_safe(encode_utf8(spec_url_encode(encode_utf8(s)))),
        spec_url_decode_bytes(encode_utf8(spec_url_encode(encode_utf8(s)))) == encode_utf8(s),
        decode_utf8(spec_url_decode_bytes(encode_utf8(spec_url_encode(encode_utf8(s))))) == s,
{
    let e = spec_url_encode(encode_utf8(s));
    lemma_encode_ascii(encode_utf8(s));
    assert(encode_utf8(e) =~= ascii_bytes(e));
    vstd::utf8::encode_utf8_decode_utf8(s);
}

// ─── The browser's redirect ─────────────────────────────────────────────────

/// The query of an HTTP request: what follows the first `?` in the second
/// word of its first line (`GET /?code=...&state=... HTTP/1.1`).
pub open spec fn request_query(req: Seq<char>) -> Option<Seq<char>> {
    match first_line(req) {
        None => None,
        Some(l) => if words(l).len() > 1 {
            match split_once(words(l)[1], '?') {
                Some(kq) => Some(kq.1),
                None => None,
            }
        } else {
            None
        },
    }
}

/// The `key=value` pieces of a query, in order (split at the first `=`); a
/// piece without `=` is left out.
pub open spec fn query_pairs(pieces: Seq<Seq<char>>) -> Seq<(Seq<char>, Seq<char>)>
    decreases pieces.len(),
{
    if pieces.len() == 0 {
        Seq::empty()
    } else {
        let rest = query_pairs(pieces.drop_last());
        match split_once(pieces.last(), '=') {
            Some(kv) => rest.push(kv),
            None => rest,
        }
    }
}

/// The raw parameters of a request, if it has a query.
pub open spec fn request_params(req: Seq<char>) -> Option<Seq<(Seq<char>, Seq<char>)>> {
    match request_query(req) {
        Some(q) => Some(query_pairs(split_on(q, '&'))),
        None => None,
    }
}

/// The value of the last parameter named `key` (a later one replaces an
/// earlier one, as when they are collected into a map).
pub open spec fn lookup_last(ps: Seq<(Seq<char>, Seq<char>)>, key: Seq<char>) -> Option<Seq<char>>
    decreases ps.len(),
{
    if ps.len() == 0 {
        None
    } else if ps.last().0 == key {
        Some(ps.last().1)
    } else {
        lookup_last(ps.drop_last(), key)
    }
}

/// A parameter value once decoded.
pub open spec fn decoded(v: Seq<char>) -> Seq<char> {
    lossy_utf8(spec_url_decode_bytes(encode_utf8(v)))
}

/// Every parameter value of the request can be decoded.
pub open spec fn redirect_decodable(req: Seq<char>) -> bool {
    match request_params(req) {
        None => true,
        Some(ps) => forall|i: int| 0 <= i < ps.len() ==> url_decode_safe(encode_utf8(#[trigger] ps[i].1)),
    }
}

/// The contents of a vector of string pairs.
pub open spec fn view_pairs(v: Seq<(String, String)>) -> Seq<(Seq<char>, Seq<char>)> {
    Seq::new(v.len(), |i: int| (v[i].0@, v[i].1@))
}

/// The `key=value` pairs of `line[from..to]`, raw (see `query_pairs`).
#[verifier::loop_isolation(false)]
fn pairs_in(line: &Vec<char>, from: usize, to: usize) -> (out: Vec<(String, String)>)
    requires
        from <= to <= line@.len(),
    ensures
        view_pairs(out@) == query_pairs(split_on(line@.subrange(from as int, to as int), '&')),
{
    let ranges = split_ranges(line, from, to, '&');
    let ghost pieces = split_on(line@.subrange(from as int, to as int), '&');
    let mut out: Vec<(String, String)> = Vec::new();
    let mut i: usize = 0;
    while i < ranges.len()
        invariant
            i <= ranges@.len() == pieces.len(),
            from <= to <= line@.len(),
            pieces == split_on(line@.subrange(from as int, to as int), '&'),
            view_pairs(out@) == query_pairs(pieces.take(i as int)),
        decreases ranges.len() - i,
    {
        let (s, t) = ranges[i];
        let ghost piece = pieces[i as int];
        assert(line@.subrange(s as int, t as int) == piece && s <= t <= line@.len()) by {
            assert(piece == split_on(line@.subrange(from as int, to as int), '&')[i as int]);
        }
        assert(pieces.take(i + 1).drop_last() =~= pieces.take(i as int));
        assert(pieces.take(i + 1).last() == piece);
        proof { lemma_find_char(piece, '='); }
        match find_in(line, s, t, '=') {
            Some(m) => {
                let key = string_of(line.as_slice(), s, m);
                let value = string_of(line.as_slice(), m + 1, t);
                proof {
                    assert(piece.subrange(0, m - s) =~= line@.subrange(s as int, m as int));
                    assert(piece.subrange(m - s + 1, piece.len() as int) =~= line@.subrange(m + 1, t as int));
                }
                let ghost before = out@;
                out.push((key, value));
                proof {
                    assert(view_pairs(out@) =~= view_pairs(before).push((key@, value@)));
                }
            },
            None => {},
        }
        i = i + 1;
    }
    proof {
        assert(pieces.take(pieces.len() as int) =~= pieces);
    }
    out
}

/// The first line of `req` and where its query lies in it, if it has one.
fn query_range(req: &str) -> (r: Option<(Vec<char>, usize, usize)>)
    ensures
        match request_query(req@) {
            None => r is None,
            Some(q) => (r matches Some((line, from, to)) && from <= to <= line@.len()
                && line@.subrange(from as int, to as int) == q),
        },
{
    let v = to_chars(req);
    let e = match first_line_end(&v) {
        Some(e) => e,
        None => return None,
    };
    let line = sub_vec(&v, 0, e);
    let ghost l = line@;
    assert(first_line(req@) == Some(l));
    proof { assert(line@.subrange(0, line@.len() as int) =~= line@); }
    let (a, b) = match next_word(&line, 0) {
        Some(ab) => ab,
        None => return None,
    };
    let (c, d) = match next_word(&line, b) {
        Some(cd) => cd,
        None => {
            proof {
                assert(words(l) =~= seq![l.subrange(a as int, b as int)]);
            }
            return None;
        },
    };
    proof {
        assert(words(l)[1] == l.subrange(c as int, d as int));
    }
    let ghost w = l.subrange(c as int, d as int);
    proof { lemma_find_char(w, '?'); }
    let k = match find_in(&line, c, d, '?') {
        Some(k) => k,
        None => return None,
    };
    proof {
        assert(w.subrange(k - c + 1, w.len() as int) =~= l.subrange(k + 1, d as int));
    }
    Some((line, k + 1, d))
}

/// The raw (not yet decoded) parameters of an HTTP request, if its request
/// line has a query.
pub fn request_params_of(req: &str) -> (r: Option<Vec<(String, String)>>)
    ensures
        match request_params(req@) {
            None => r is None,
            Some(ps) => (r matches Some(v) && view_pairs(v@) == ps),
        },
{
    match query_range(req) {
        Some((line, from, to)) => Some(pairs_in(&line, from, to)),
        None => None,
    }
}

/// Index of the last pair whose key is `key`.
fn find_last(ps: &Vec<(String, String)>, key: &str) -> (r: Option<usize>)
    ensures
        match lookup_last(view_pairs(ps@), key@) {
            None => r is None,
            Some(val) => (r matches Some(i) && i < ps@.len() && ps@[i as int].1@ == val),
        },
{
    let ghost full = view_pairs(ps@);
    let mut i = ps.len();
    proof { assert(full.take(i as int) =~= full); }
    while i > 0
        invariant
            i <= ps@.len(),
            full == view_pairs(ps@),
            lookup_last(full, key@) == lookup_last(full.take(i as int), key@),
        decreases i,
    {
        let ghost t = full.take(i as int);
        assert(t.last() == full[i - 1]);
        if str_eq(ps[i - 1].0.as_str(), key) {
            return Some(i - 1);
        }
        assert(t.drop_last() =~= full.take(i - 1));
        i = i - 1;
    }
    None
}

/// What the browser's request brings back from Microsoft.
#[derive(Clone, Debug)]
pub enum Redirect {
    /// No query in the request (the browser asking for its icon...): it is
    /// answered "not found", and the next request is awaited.
    NotFound,
    /// Microsoft refused the sign-in.
    Refused { error: String, description: String },
    /// The `state` is not the one of this sign-in: not its answer.
    Unexpected,
    /// No code in the request: the next one is awaited.
    NoCode,
    /// The authorization code.
    Code(String),
}

/// Reads the browser's request after Microsoft's redirect: an `error`
/// parameter means a refusal (with `error_description`, if any); a `state`
/// other than the expected one, an unexpected answer; otherwise the `code`.
/// Parameter values are percent-decoded.
pub fn read_redirect(req: &str, state: &str) -> (r: Redirect)
    requires
        redirect_decodable(req@),
    ensures
        match request_params(req@) {
            None => r is NotFound,
            Some(ps) => match lookup_last(ps, "error"@) {
                Some(e) => (r matches Redirect::Refused { error, description } && error@ == decoded(e)
                    && description@ == match lookup_last(ps, "error_description"@) {
                    Some(d) => decoded(d),
                    None => Seq::<char>::empty(),
                }),
                None => if !(lookup_last(ps, "state"@) matches Some(s) && decoded(s) == state@) {
                    r is Unexpected
                } else {
                    match lookup_last(ps, "code"@) {
                        None => r is NoCode,
                        Some(c) => (r matches Redirect::Code(code) && code@ == decoded(c)),
                    }
                },
            },
        },
{
    let ps = match request_params_of(req) {
        Some(ps) => ps,
        None => return Redirect::NotFound,
    };
    let ghost vp = view_pairs(ps@);
    assert forall|i: int| 0 <= i < ps@.len() implies url_decode_safe(encode_utf8(#[trigger] ps@[i].1@)) by {
        assert(vp[i].1 == ps@[i].1@);
    }
    match find_last(&ps, "error") {
        Some(i) => {
            let error = url_decode(ps[i].1.as_str());
            let description = match find_last(&ps, "error_description") {
                Some(j) => url_decode(ps[j].1.as_str()),
                None => String::new(),
            };
            return Redirect::Refused { error, description };
        },
        None => {},
    }
    let state_ok = match find_last(&ps, "state") {
        Some(i) => {
            let s = url_decode(ps[i].1.as_str());
            str_eq(s.as_str(), state)
        },
        None => false,
    };
    if !state_ok {
        return Redirect::Unexpected;
    }
    match find_last(&ps, "code") {
        Some(i) => Redirect::Code(url_decode(ps[i].1.as_str())),
        None => Redirect::NoCode,
    }
}

/// Whether a parameter value can be decoded (see `url_decode_safe`).
pub fn url_decodable(s: &str) -> (r: bool)
    ensures
        r == url_decode_safe(encode_utf8(s@)),
{
    let b = s.as_bytes();
    let n = b.len();
    let mut i: usize = 0;
    assert(b@.subrange(0, n as int) =~= b@);
    while i < n
        invariant
            n == b@.len(),
            b@ == encode_utf8(s@),
            i <= n,
            url_decode_safe(b@) == url_decode_safe(b@.subrange(i as int, n as int)),
        decreases n - i,
    {
        let ghost rest = b@.subrange(i as int, n as int);
        if b[i] == 0x25 && n - i >= 3 {
            if n - i > 3 && 0x80 <= b[i + 3] && b[i + 3] <= 0xbf {
                assert(rest[3] == b@[i + 3]);
                assert(rest[0] == b@[i as int]);
                assert(!url_decode_safe(rest));
                return false;
            }
            match two_hex_of(b[i + 1], b[i + 2]) {
                Some(_) => {
                    assert(rest.subrange(3, rest.len() as int) =~= b@.subrange(i + 3, n as int));
                    i = i + 3;
                },
                None => {
                    assert(rest.drop_first() =~= b@.subrange(i + 1, n as int));
                    i = i + 1;
                },
            }
        } else {
            assert(rest.drop_first() =~= b@.subrange(i + 1, n as int));
            i = i + 1;
        }
    }
    true
}

/// Whether every parameter value of the request can be decoded.
pub fn redirect_decodable_exec(req: &str) -> (r: bool)
    ensures
        r == redirect_decodable(req@),
{
    let ps = match request_params_of(req) {
        Some(ps) => ps,
        None => return true,
    };
    let ghost vp = view_pairs(ps@);
    let mut i: usize = 0;
    while i < ps.len()
        invariant
            i <= ps@.len(),
            vp == view_pairs(ps@),
            request_params(req@) == Some(vp),
            forall|j: int| 0 <= j < i ==> url_decode_safe(encode_utf8(#[trigger] vp[j].1)),
        decreases ps.len() - i,
    {
        assert(vp[i as int].1 == ps@[i as int].1@);
        if !url_decodable(ps[i].1.as_str()) {
            proof {
                assert(!url_decode_safe(encode_utf8(vp[i as int].1)));
                assert(request_params(req@)->0 == vp);
                assert(!url_decode_safe(encode_utf8(request_params(req@)->0[i as int].1)));
                assert(!redirect_decodable(req@));
            }
            return false;
        }
        i = i + 1;
    }
    true
}

// ─── The page shown in the browser ──────────────────────────────────────────

/// Title of the page: success or failure.
pub open spec fn page_title(ok: bool) -> Seq<char> {
    if ok {
        "Connecté à Turi Craft"@
    } else {
        "Connexion impossible"@
    }
}

/// Accent colour of the page.
pub open spec fn page_color(ok: bool) -> Seq<char> {
    if ok {
        "#f5c518"@
    } else {
        "#ff6b6b"@
    }
}

/// The HTML of the page shown in the browser once back from Microsoft.
pub open spec fn page_body(ok: bool, message: Seq<char>) -> Seq<char> {
    "<!doctype html><meta charset=utf-8><title>"@ + page_title(ok)
        + "</title><body style=\"margin:0;height:100vh;display:grid;place-items:center;background:#121316;color:#f1f1f1;font:16px system-ui,sans-serif\"><div style=\"text-align:center;border-top:3px solid "@
        + page_color(ok) + ";padding:28px 36px;background:#000\"><h1 style=\"margin:0 0 8px;font-size:22px;color:"@
        + page_color(ok) + "\">"@ + page_title(ok) + "</h1><p style=\"margin:0;color:#a3a6ad\">"@ + message
        + "</p></div></body>"@
}

/// The whole HTTP answer carrying that page: its `Content-Length` is the
/// body's length in UTF-8 bytes.
pub open spec fn page_response(ok: bool, message: Seq<char>) -> Seq<char> {
    "HTTP/1.1 200 OK\r\nContent-Type: text/html; charset=utf-8\r\nContent-Length: "@ + spec_decimal(
        encode_utf8(page_body(ok, message)).len(),
    ) + "\r\nConnection: close\r\n\r\n"@ + page_body(ok, message)
}

/// The HTTP answer to the browser, with a page saying whether the sign-in
/// worked and `message`.
pub fn page(ok: bool, message: &str) -> (r: String)
    ensures
        r@ == page_response(ok, message@),
{
    let (title, color) = if ok {
        ("Connecté à Turi Craft", "#f5c518")
    } else {
        ("Connexion impossible", "#ff6b6b")
    };
    let mut body = String::new();
    body.append("<!doctype html><meta charset=utf-8><title>");
    body.append(title);
    body.append(
        "</title><body style=\"margin:0;height:100vh;display:grid;place-items:center;background:#121316;color:#f1f1f1;font:16px system-ui,sans-serif\"><div style=\"text-align:center;border-top:3px solid ",
    );
    body.append(color);
    body.append(";padding:28px 36px;background:#000\"><h1 style=\"margin:0 0 8px;font-size:22px;color:");
    body.append(color);
    body.append("\">");
    body.append(title);
    body.append("</h1><p style=\"margin:0;color:#a3a6ad\">");
    body.append(message);
    body.append("</p></div></body>");
    assert(body@ == page_body(ok, message@));
    let len = body.as_str().as_bytes().len();
    let mut r = String::new();
    r.append("HTTP/1.1 200 OK\r\nContent-Type: text/html; charset=utf-8\r\nContent-Length: ");
    push_decimal(&mut r, len as u64);
    r.append("\r\nConnection: close\r\n\r\n");
    r.append(body.as_str());
    assert(r@ =~= page_response(ok, message@));
    r
}

/// What is sent back to the browser for its request, if anything: "not
/// found" for a request without query, the failure page for a refusal or an
/// unexpected answer, the success page with the code, nothing while no code
/// has come.
pub fn reply(r: &Redirect) -> (out: Option<String>)
    ensures
        match r {
            Redirect::NotFound => (out matches Some(o) && o@ == "HTTP/1.1 404 Not Found\r\nContent-Length: 0\r\n\r\n"@),
            Redirect::Refused { .. } => (out matches Some(o) && o@ == page_response(false, "Reviens au launcher."@)),
            Redirect::Unexpected => (out matches Some(o) && o@ == page_response(
                false,
                "Réponse inattendue : reviens au launcher."@,
            )),
            Redirect::NoCode => out is None,
            Redirect::Code(_) => (out matches Some(o) && o@ == page_response(
                true,
                "Tu peux fermer cet onglet et revenir au launcher."@,
            )),
        },
{
    match r {
        Redirect::NotFound => Some("HTTP/1.1 404 Not Found\r\nContent-Length: 0\r\n\r\n".to_owned()),
        Redirect::Refused { .. } => Some(page(false, "Reviens au launcher.")),
        Redirect::Unexpected => Some(page(false, "Réponse inattendue : reviens au launcher.")),
        Redirect::NoCode => None,
        Redirect::Code(_) => Some(page(true, "Tu peux fermer cet onglet et revenir au launcher.")),
    }
}

// ─── Device code ────────────────────────────────────────────────────────────

/// The code shown to the player, and how to wait for them.
#[derive(Clone, Debug)]
pub struct DeviceCode {
    pub user_code: String,
    pub device_code: String,
    pub verification_uri: String,
    pub expires_in: u64,
    pub interval: u64,
    pub message: Option<String>,
}

/// What is needed to launch the game. `access_token` only ever leaves the
/// launcher for the game's command line.
#[derive(Clone, Debug)]
pub struct Session {
    pub name: String,
    pub uuid: String,
    pub access_token: String,
    pub xuid: String,
}

/// Why a sign-in stopped.
#[derive(Clone, Debug, PartialEq, Eq)]
pub enum SignInError {
    /// The player refused on Microsoft's page.
    Declined,
    /// The code expired before the player entered it.
    Expired,
    /// Another error reported by Microsoft, with its description.
    Microsoft { error: String, description: String },
}

/// The message shown for a sign-in error.
pub open spec fn sign_in_message(e: SignInError) -> Seq<char> {
    match e {
        SignInError::Declined => "connexion refusée sur la page de Microsoft"@,
        SignInError::Expired => "le code a expiré, recommence la connexion"@,
        SignInError::Microsoft { error, description } => "Microsoft : "@ + error@ + " "@ + description@,
    }
}

impl SignInError {
    /// The message shown to the player.
    pub fn message(&self) -> (r: String)
        ensures
            r@ == sign_in_message(*self),
    {
        match self {
            SignInError::Declined => "connexion refusée sur la page de Microsoft".to_owned(),
            SignInError::Expired => "le code a expiré, recommence la connexion".to_owned(),
            SignInError::Microsoft { error, description } => {
                let mut r = "Microsoft : ".to_owned();
                r.append(error.as_str());
                r.append(" ");
                r.append(description.as_str());
                r
            },
        }
    }
}

/// The first pause between two polls, in seconds: the one Microsoft asks
/// for, one second at least.
pub fn first_interval(code: &DeviceCode) -> (r: u64)
    ensures
        r == if code.interval >= 1 { code.interval } else { 1 },
{
    if code.interval >= 1 {
        code.interval
    } else {
        1
    }
}

/// Microsoft answered a poll with `error` (and maybe a description): go on
/// polling, with the pause to take next (five seconds more after
/// `slow_down`), or stop with the error.
pub fn poll_step(error: &str, description: Option<String>, interval: u64) -> (r: Result<
    u64,
    SignInError,
>)
    requires
        interval + 5 <= u64::MAX,
    ensures
        error@ == "authorization_pending"@ ==> r == Ok::<u64, SignInError>(interval),
        error@ == "slow_down"@ ==> r == Ok::<u64, SignInError>((interval + 5) as u64),
        error@ == "authorization_declined"@ ==> r == Err::<u64, SignInError>(SignInError::Declined),
        error@ == "expired_token"@ ==> r == Err::<u64, SignInError>(SignInError::Expired),
        error@ != "authorization_pending"@ && error@ != "slow_down"@ && error@ != "authorization_declined"@
            && error@ != "expired_token"@ ==> (r matches Err(SignInError::Microsoft { error: e, description: d })
            && e@ == error@ && d@ == match description {
            Some(d) => d@,
            None => Seq::<char>::empty(),
        }),
{
    proof {
        reveal_strlit("authorization_pending");
        reveal_strlit("slow_down");
        reveal_strlit("authorization_declined");
        reveal_strlit("expired_token");
        assert("authorization_pending"@.len() == 21);
        assert("slow_down"@.len() == 9);
        assert("authorization_declined"@.len() == 22);
        assert("expired_token"@.len() == 13);
    }
    if str_eq(error, "authorization_pending") {
        Ok(interval)
    } else if str_eq(error, "slow_down") {
        Ok(interval + 5)
    } else if str_eq(error, "authorization_declined") {
        Err(SignInError::Declined)
    } else if str_eq(error, "expired_token") {
        Err(SignInError::Expired)
    } else {
        let d = match description {
            Some(d) => d,
            None => String::new(),
        };
        Err(SignInError::Microsoft { error: error.to_owned(), description: d })
    }
}

// ─── Xbox Live and Minecraft ────────────────────────────────────────────────

/// The message shown when XSTS refuses the account (HTTP 401), by its
/// `XErr` code.
pub open spec fn xsts_message(xerr: Option<u64>) -> Seq<char> {
    match xerr {
        Some(2148916233) => "ce compte Microsoft n'a pas de profil Xbox : crée-le sur xbox.com, puis réessaie"@,
        Some(2148916235) => "Xbox Live n'est pas disponible dans ton pays"@,
        Some(2148916236) => "vérification d'âge demandée par Xbox : connecte-toi une fois sur xbox.com"@,
        Some(2148916237) => "vérification d'âge demandée par Xbox : connecte-toi une fois sur xbox.com"@,
        Some(2148916238) => "compte enfant : il doit être ajouté à une famille Microsoft par un adulte"@,
        Some(n) => "Xbox refuse la connexion (XErr Some("@ + spec_decimal(n as nat) + "))"@,
        None => "Xbox refuse la connexion (XErr None)"@,
    }
}

/// What the player is told when XSTS refuses the account.
pub fn xsts_refusal(xerr: Option<u64>) -> (r: String)
    ensures
        r@ == xsts_message(xerr),
{
    match xerr {
        Some(n) => {
            if n == 2148916233 {
                "ce compte Microsoft n'a pas de profil Xbox : crée-le sur xbox.com, puis réessaie".to_owned()
            } else if n == 2148916235 {
                "Xbox Live n'est pas disponible dans ton pays".to_owned()
            } else if n == 2148916236 || n == 2148916237 {
                "vérification d'âge demandée par Xbox : connecte-toi une fois sur xbox.com".to_owned()
            } else if n == 2148916238 {
                "compte enfant : il doit être ajouté à une famille Microsoft par un adulte".to_owned()
            } else {
                let mut r = "Xbox refuse la connexion (XErr Some(".to_owned();
                push_decimal(&mut r, n);
                r.append("))");
                r
            }
        },
        None => "Xbox refuse la connexion (XErr None)".to_owned(),
    }
}

/// The ticket sent to Xbox Live for a Microsoft access token.
pub fn rps_ticket(access_token: &str) -> (r: String)
    ensures
        r@ == "d="@ + access_token@,
{
    let mut r = "d=".to_owned();
    r.append(access_token);
    r
}

/// The identity sent to Minecraft Services: the user hash and the XSTS
/// token.
pub fn xbox_identity(uhs: &str, xsts_token: &str) -> (r: String)
    ensures
        r@ == "XBL3.0 x="@ + uhs@ + ";"@ + xsts_token@,
{
    let mut r = "XBL3.0 x=".to_owned();
    r.append(uhs);
    r.append(";");
    r.append(xsts_token);
    r
}

// ─── Offline mode ───────────────────────────────────────────────────────────

/// The MD5 digest of `data` (computed by the `md-5` crate).
pub uninterp spec fn md5_of(data: Seq<u8>) -> Seq<u8>;

/// `md5::Md5::digest`: the 16-byte MD5 digest of `data`. Trusted: the digest
/// is only named (`md5_of`); its length is the one the algorithm defines.
#[verifier::external_body]
fn md5_digest(data: &[u8]) -> (d: Vec<u8>)
    ensures
        d@ == md5_of(data@),
        d@.len() == 16,
{
    md5::Md5::digest(data).to_vec()
}

/// `uuid::Uuid::from_slice(..).simple().to_string()`: the 16 bytes in
/// lower-case hexadecimal, high digit first, without hyphens, as the `uuid`
/// crate's "simple" format is documented. Trusted to follow that
/// documentation (`spec_hex`).
#[verifier::external_body]
fn uuid_simple(bytes: &[u8]) -> (s: String)
    requires
        bytes@.len() == 16,
    ensures
        s@ == spec_hex(bytes@),
{
    match uuid::Uuid::from_slice(bytes) {
        Ok(u) => u.simple().to_string(),
        Err(_) => String::new(),
    }
}

/// Java's `UUID.nameUUIDFromBytes`: an MD5 digest made a version 3 UUID.
pub open spec fn name_uuid_bytes(digest: Seq<u8>) -> Seq<u8> {
    digest.update(6, (digest[6] & 0x0fu8) | 0x30u8).update(8, (digest[8] & 0x3fu8) | 0x80u8)
}

/// The offline identity is a version 3 UUID of the RFC 4122 variant, for
/// every name: whatever the digest, its version nibble is 3 and its variant
/// bits are `10`.
pub proof fn lemma_offline_uuid_version(digest: Seq<u8>)
    requires
        digest.len() == 16,
    ensures
        name_uuid_bytes(digest).len() == 16,
        name_uuid_bytes(digest)[6] >> 4u8 == 3,
        name_uuid_bytes(digest)[8] >> 6u8 == 2,
        forall|i: int| 0 <= i < 16 && i != 6 && i != 8 ==> name_uuid_bytes(digest)[i] == digest[i],
{
    let a = digest[6];
    let b = digest[8];
    assert(((a & 0x0fu8) | 0x30u8) >> 4u8 == 3) by (bit_vector);
    assert(((b & 0x3fu8) | 0x80u8) >> 6u8 == 2) by (bit_vector);
}

/// The offline identity of `name`, as the vanilla server derives it for
/// `OfflinePlayer:<name>`.
pub open spec fn offline_uuid(name: Seq<char>) -> Seq<char> {
    spec_hex(name_uuid_bytes(md5_of(encode_utf8("OfflinePlayer:"@ + name))))
}

/// Offline mode (for trials): the UUID is derived from the name as the
/// vanilla server does, the tokens are `"0"`.
pub fn offline_session(name: &str) -> (s: Session)
    ensures
        s.name@ == name@,
        s.uuid@ == offline_uuid(name@),
        s.access_token@ == "0"@,
        s.xuid@ == "0"@,
{
    let mut key = "OfflinePlayer:".to_owned();
    key.append(name);
    let mut h = md5_digest(key.as_str().as_bytes());
    let b6 = (h[6] & 0x0f) | 0x30;
    let b8 = (h[8] & 0x3f) | 0x80;
    h.set(6, b6);
    h.set(8, b8);
    let uuid = uuid_simple(h.as_slice());
    Session { name: name.to_owned(), uuid, access_token: "0".to_owned(), xuid: "0".to_owned() }
}

// ─── Browser sign-in request ────────────────────────────────────────────────

/// Character `n` (`n < 64`) of the URL-safe base64 alphabet.
pub open spec fn b64_char(n: u8) -> char {
    if n < 26 {
        (65 + n) as char
    } else if n < 52 {
        (97 + (n - 26)) as char
    } else if n < 62 {
        (48 + (n - 52)) as char
    } else if n == 62 {
        '-'
    } else {
        '_'
    }
}

/// URL-safe base64 without padding (RFC 4648, section 5): three bytes give
/// four characters, a last group of one or two bytes gives two or three.
pub open spec fn spec_b64url(d: Seq<u8>) -> Seq<char>
    decreases d.len(),
{
    if d.len() == 0 {
        Seq::empty()
    } else if d.len() == 1 {
        seq![b64_char(d[0] >> 2u8), b64_char((d[0] & 3u8) << 4u8)]
    } else if d.len() == 2 {
        seq![
            b64_char(d[0] >> 2u8),
            b64_char(((d[0] & 3u8) << 4u8) | (d[1] >> 4u8)),
            b64_char((d[1] & 15u8) << 2u8),
        ]
    } else {
        seq![
            b64_char(d[0] >> 2u8),
            b64_char(((d[0] & 3u8) << 4u8) | (d[1] >> 4u8)),
            b64_char(((d[1] & 15u8) << 2u8) | (d[2] >> 6u8)),
            b64_char(d[2] & 63u8),
        ] + spec_b64url(d.subrange(3, d.len() as int))
    }
}

/// `base64::engine::general_purpose::URL_SAFE_NO_PAD.encode`: URL-safe
/// base64 without padding, as RFC 4648 defines it. Trusted to follow it
/// (`spec_b64url`).
#[verifier::external_body]
fn b64url_encode(data: &[u8]) -> (s: String)
    ensures
        s@ == spec_b64url(data@),
{
    base64::engine::general_purpose::URL_SAFE_NO_PAD.encode(data)
}

/// `uuid::Uuid::new_v4().as_bytes()`: 16 bytes from the system's random
/// generator (with the version and variant bits of a v4 UUID). Nothing is
/// stated of them but their number.
#[verifier::external_body]
fn random_uuid_bytes() -> (b: Vec<u8>)
    ensures
        b@.len() == 16,
{
    uuid::Uuid::new_v4().as_bytes().to_vec()
}

/// `bytes` random bytes (taken from v4 UUIDs) in URL-safe base64.
pub fn random_b64(bytes: usize) -> (r: String)
    ensures
        exists|d: Seq<u8>| d.len() == bytes && r@ == spec_b64url(d),
{
    let mut buf: Vec<u8> = Vec::new();
    while buf.len() < bytes
        invariant
            buf@.len() <= bytes,
        decreases bytes - buf@.len(),
    {
        let u = random_uuid_bytes();
        let ghost before = buf@.len();
        let mut j: usize = 0;
        while j < 16 && buf.len() < bytes
            invariant
                buf@.len() <= bytes,
                before < bytes,
                buf@.len() == before + j,
                j <= 16,
                u@.len() == 16,
            decreases 16 - j,
        {
            buf.push(u[j]);
            j = j + 1;
        }
    }
    let r = b64url_encode(buf.as_slice());
    assert(buf@.len() == bytes && r@ == spec_b64url(buf@));
    r
}

/// The PKCE challenge of a verifier: its SHA-256 in URL-safe base64.
pub open spec fn pkce_challenge(verifier: Seq<char>) -> Seq<char> {
    spec_b64url(sha256_of(encode_utf8(verifier)))
}

/// The scope asked of Microsoft.
pub open spec fn scope() -> Seq<char> {
    "XboxLive.signin offline_access"@
}

/// Microsoft's sign-in page for this launcher.
pub open spec fn authorize_url(client_id: Seq<char>, redirect: Seq<char>, challenge: Seq<char>, state: Seq<char>) -> Seq<char> {
    "https://login.microsoftonline.com/consumers/oauth2/v2.0/authorize?client_id="@
        + spec_url_encode(encode_utf8(client_id)) + "&response_type=code&redirect_uri="@
        + spec_url_encode(encode_utf8(redirect)) + "&response_mode=query&scope="@
        + spec_url_encode(encode_utf8(scope())) + "&code_challenge="@ + challenge
        + "&code_challenge_method=S256&state="@ + state + "&prompt=select_account"@
}

/// A browser sign-in about to start: the page to open, and what the answer
/// is checked and exchanged with.
#[derive(Clone, Debug)]
pub struct LoginRequest {
    pub url: String,
    pub verifier: String,
    pub state: String,
    pub redirect: String,
}

/// The sign-in page for a local listener on `port`: a fresh PKCE verifier
/// (48 random bytes) and state (16 random bytes), and the page's address.
pub fn login_request(client_id: &str, port: u16) -> (r: LoginRequest)
    ensures
        r.redirect@ == "http://localhost:"@ + spec_decimal(port as nat),
        exists|d: Seq<u8>| d.len() == 48 && r.verifier@ == spec_b64url(d),
        exists|d: Seq<u8>| d.len() == 16 && r.state@ == spec_b64url(d),
        r.url@ == authorize_url(client_id@, r.redirect@, pkce_challenge(r.verifier@), r.state@),
{
    let mut redirect = "http://localhost:".to_owned();
    push_decimal(&mut redirect, port as u64);
    let verifier = random_b64(48);
    let challenge = b64url_encode(sha256_digest(verifier.as_str().as_bytes()).as_slice());
    let state = random_b64(16);
    let mut url = "https://login.microsoftonline.com/consumers/oauth2/v2.0/authorize?client_id=".to_owned();
    url.append(url_encode(client_id).as_str());
    url.append("&response_type=code&redirect_uri=");
    url.append(url_encode(redirect.as_str()).as_str());
    url.append("&response_mode=query&scope=");
    url.append(url_encode("XboxLive.signin offline_access").as_str());
    url.append("&code_challenge=");
    url.append(challenge.as_str());
    url.append("&code_challenge_method=S256&state=");
    url.append(state.as_str());
    url.append("&prompt=select_account");
    LoginRequest { url, verifier, state, redirect }
}

} // verus!
