//! Is the server up, and how many players are on it? Minecraft's "Server
//! List Ping" protocol (the one the game's server list uses): packets framed
//! by VarInt lengths.

use vstd::prelude::*;

use crate::text::{push_char, spec_trim, trim_chars};

verus! {

/// What the launcher shows of the server.
#[derive(Clone, Debug)]
pub struct ServerStatus {
    pub online: bool,
    pub players: u32,
    pub max_players: u32,
    pub version: String,
    /// Server message (plain text, without colour codes).
    pub motd: String,
    pub latency_ms: u64,
    pub error: Option<String>,
}

/// Number of bytes of the VarInt encoding of `u` (7 bits per byte).
pub open spec fn varint_len(u: u32) -> nat {
    if u < 0x80 {
        1
    } else if u < 0x4000 {
        2
    } else if u < 0x20_0000 {
        3
    } else if u < 0x1000_0000 {
        4
    } else {
        5
    }
}

/// Byte `j` of the VarInt encoding of `u`: 7 bits of `u`, low bits first,
/// with the high bit set on every byte but the last.
pub open spec fn varint_byte(u: u32, j: int, len: nat) -> u8 {
    let low = ((u >> ((7 * j) as u32)) & 0x7f) as u8;
    if j + 1 < len {
        low | 0x80
    } else {
        low
    }
}

/// VarInt encoding of the 32 bits of `u`.
pub open spec fn spec_varint(u: u32) -> Seq<u8> {
    Seq::new(varint_len(u), |j: int| varint_byte(u, j, varint_len(u)))
}

proof fn lemma_shift_step(u: u32, k: u32)
    requires
        k < 5,
    ensures
        (u >> (7 * k)) >> 7u32 == u >> (7 * (k + 1)),
        (u >> (7 * k)) & 0x7f == (u >> (7 * k)) & 0x7f,
{
    assert((u >> (7 * k)) >> 7u32 == u >> (7 * (k + 1))) by (bit_vector)
        requires k < 5;
}

proof fn lemma_len_shift(u: u32, k: u32)
    requires
        k < 5,
        k < varint_len(u),
    ensures
        (u >> (7 * (k + 1)) != 0) <==> (k + 1 < varint_len(u)),
{
    if u < 0x80 {
        assert(k == 0);
        assert(u < 0x80 ==> u >> 7u32 == 0) by (bit_vector);
    } else if u < 0x4000 {
        assert(k <= 1);
        assert(0x80 <= u < 0x4000 ==> u >> 7u32 != 0 && u >> 14u32 == 0) by (bit_vector);
    } else if u < 0x20_0000 {
        assert(0x4000 <= u < 0x20_0000 ==> u >> 7u32 != 0 && u >> 14u32 != 0 && u >> 21u32 == 0)
            by (bit_vector);
    } else if u < 0x1000_0000 {
        assert(0x20_0000 <= u < 0x1000_0000 ==> u >> 7u32 != 0 && u >> 14u32 != 0 && u >> 21u32
            != 0 && u >> 28u32 == 0) by (bit_vector);
    } else {
        assert(0x1000_0000 <= u ==> u >> 7u32 != 0 && u >> 14u32 != 0 && u >> 21u32 != 0 && u
            >> 28u32 != 0 && u >> 35u32 == 0) by (bit_vector);
    }
}

/// Appends the VarInt encoding of `v` (its 32 bits, as the protocol wants:
/// negative numbers take 5 bytes).
pub fn write_varint(buf: &mut Vec<u8>, v: i32)
    ensures
        final(buf)@ == old(buf)@ + spec_varint(v as u32),
{
    let u: u32 = v as u32;
    let mut w: u32 = u;
    let mut k: u32 = 0;
    let ghost start = buf@;
    assert(u >> (7 * 0u32) == u) by (bit_vector);
    loop
        invariant_except_break
            k < 5,
            k < varint_len(u),
            w == u >> (7 * k),
            buf@ == start + spec_varint(u).subrange(0, k as int),
        ensures
            buf@ == start + spec_varint(u),
        decreases 5 - k,
    {
        let mut b: u8 = (w & 0x7f) as u8;
        proof {
            lemma_shift_step(u, k);
            lemma_len_shift(u, k);
        }
        w = w >> 7;
        if w != 0 {
            b = b | 0x80;
        }
        buf.push(b);
        assert(b == varint_byte(u, k as int, varint_len(u)));
        assert(spec_varint(u).subrange(0, k + 1) =~= spec_varint(u).subrange(0, k as int).push(b));
        if w == 0 {
            assert(spec_varint(u).subrange(0, k + 1) =~= spec_varint(u));
            break;
        }
        k = k + 1;
    }
}


/// Why a VarInt could not be read.
#[derive(Clone, Copy, Debug, PartialEq, Eq)]
pub enum VarintError {
    /// The bytes end before the last byte of the VarInt.
    Truncated,
    /// Five bytes and still not the last one.
    TooLong,
}

/// The 7-bit groups of `s[0..=k]`, low group first, gathered in 32 bits
/// (bits beyond the 32nd are dropped).
pub open spec fn varint_acc(s: Seq<u8>, k: int) -> u32
    decreases k,
{
    if k <= 0 {
        (s[0] & 0x7f) as u32
    } else {
        varint_acc(s, k - 1) | (((s[k] & 0x7f) as u32) << ((7 * k) as u32))
    }
}

/// Reading a VarInt at the start of `s`, from byte `j` on: the value and the
/// number of bytes it takes.
pub open spec fn varint_from(s: Seq<u8>, j: nat) -> Result<(u32, nat), VarintError>
    decreases 5 - j,
{
    if j >= 5 {
        Err(VarintError::TooLong)
    } else if j >= s.len() {
        Err(VarintError::Truncated)
    } else if s[j as int] & 0x80 == 0 {
        Ok((varint_acc(s, j as int), j + 1))
    } else {
        varint_from(s, j + 1)
    }
}

/// Reading a VarInt at the start of `s`.
pub open spec fn spec_read_varint(s: Seq<u8>) -> Result<(u32, nat), VarintError> {
    varint_from(s, 0)
}

/// Reads the VarInt at the start of `bytes`: its value and its length. At
/// most five bytes are read.
pub fn read_varint(bytes: &[u8]) -> (r: Result<(i32, usize), VarintError>)
    ensures
        match spec_read_varint(bytes@) {
            Ok((u, n)) => r == Ok::<(i32, usize), VarintError>((u as i32, n as usize)),
            Err(e) => r == Err::<(i32, usize), VarintError>(e),
        },
{
    let mut result: u32 = 0;
    let mut i: usize = 0;
    while i < 5
        invariant
            i <= 5,
            i > 0 ==> result == varint_acc(bytes@, i - 1),
            i == 0 ==> result == 0,
            spec_read_varint(bytes@) == varint_from(bytes@, i as nat),
        decreases 5 - i,
    {
        if i >= bytes.len() {
            return Err(VarintError::Truncated);
        }
        let b = bytes[i];
        let part: u32 = ((b & 0x7f) as u32) << ((7 * i) as u32);
        result = result | part;
        proof {
            if i == 0 {
                assert(0u32 | (((b & 0x7f) as u32) << 0u32) == (b & 0x7f) as u32) by (bit_vector);
            }
        }
        if b & 0x80 == 0 {
            return Ok((result as i32, i + 1));
        }
        i = i + 1;
    }
    Err(VarintError::TooLong)
}

proof fn lemma_byte_bits(u: u32, j: u32, high: bool)
    requires
        j < 5,
    ensures
        ((if high { (((u >> (7 * j)) & 0x7f) as u8) | 0x80 } else { ((u >> (7 * j)) & 0x7f) as u8 })
            & 0x7f) as u32 == (u >> (7 * j)) & 0x7f,
        ((if high { (((u >> (7 * j)) & 0x7f) as u8) | 0x80 } else { ((u >> (7 * j)) & 0x7f) as u8 })
            & 0x80 == 0) == !high,
{
    if high {
        assert(((((u >> (7 * j)) & 0x7f) as u8) | 0x80) & 0x7f == ((u >> (7 * j)) & 0x7f) as u8
            && ((((u >> (7 * j)) & 0x7f) as u8) | 0x80) & 0x80 != 0
            && (((u >> (7 * j)) & 0x7f) as u8) as u32 == (u >> (7 * j)) & 0x7f) by (bit_vector);
    } else {
        assert((((u >> (7 * j)) & 0x7f) as u8) & 0x7f == ((u >> (7 * j)) & 0x7f) as u8
            && (((u >> (7 * j)) & 0x7f) as u8) & 0x80 == 0
            && (((u >> (7 * j)) & 0x7f) as u8) as u32 == (u >> (7 * j)) & 0x7f) by (bit_vector);
    }
}

/// The low `7 * (k + 1)` bits of `u`.
pub open spec fn low_groups(u: u32, k: u32) -> u32 {
    ((u as u64) & (((1u64 << (7 * (k + 1))) - 1) as u64)) as u32
}

proof fn lemma_acc_of_encoding(u: u32, rest: Seq<u8>, k: u32)
    requires
        k < varint_len(u),
    ensures
        varint_acc(spec_varint(u) + rest, k as int) == low_groups(u, k),
    decreases k,
{
    let s = spec_varint(u) + rest;
    let l = varint_len(u);
    lemma_byte_bits(u, k, k + 1 < l);
    assert(s[k as int] == varint_byte(u, k as int, l));
    if k == 0 {
        assert(((u >> (7 * 0u32)) & 0x7f) == low_groups(u, 0)) by (bit_vector);
    } else {
        lemma_acc_of_encoding(u, rest, (k - 1) as u32);
        let km = (k - 1) as u32;
        assert(k == km + 1);
        assert(1 <= k < 5 ==> (((u as u64) & (((1u64 << (7 * (km + 1))) - 1) as u64)) as u32) | (((u >> (7
            * k)) & 0x7f) << (7 * k)) == ((u as u64) & (((1u64 << (7 * (k + 1))) - 1) as u64)) as u32)
            by (bit_vector)
            requires
                k == km + 1,
        ;
    }
}

proof fn lemma_low_groups_full(u: u32)
    ensures
        low_groups(u, (varint_len(u) - 1) as u32) == u,
{
    let l = varint_len(u);
    if u < 0x80 {
        assert(u < 0x80 ==> ((u as u64) & (((1u64 << (7 * (0u32 + 1))) - 1) as u64)) as u32 == u)
            by (bit_vector);
    } else if u < 0x4000 {
        assert(u < 0x4000 ==> ((u as u64) & (((1u64 << (7 * (1u32 + 1))) - 1) as u64)) as u32 == u)
            by (bit_vector);
    } else if u < 0x20_0000 {
        assert(u < 0x20_0000 ==> ((u as u64) & (((1u64 << (7 * (2u32 + 1))) - 1) as u64)) as u32 == u)
            by (bit_vector);
    } else if u < 0x1000_0000 {
        assert(u < 0x1000_0000 ==> ((u as u64) & (((1u64 << (7 * (3u32 + 1))) - 1) as u64)) as u32 == u)
            by (bit_vector);
    } else {
        assert(((u as u64) & (((1u64 << (7 * (4u32 + 1))) - 1) as u64)) as u32 == u) by (bit_vector);
    }
}

/// Reading back what `write_varint` wrote gives the same number, whatever
/// follows it: the VarInt is read from exactly its own bytes.
pub proof fn lemma_varint_roundtrip(v: i32, rest: Seq<u8>)
    ensures
        spec_read_varint(spec_varint(v as u32) + rest) == Ok::<(u32, nat), VarintError>(
            (v as u32, varint_len(v as u32)),
        ),
        (v as u32) as i32 == v,
{
    let u = v as u32;
    let s = spec_varint(u) + rest;
    let l = varint_len(u);
    assert forall|j: nat| j < l implies (#[trigger] s[j as int] & 0x80 == 0) == (j + 1 == l) by {
        lemma_byte_bits(u, j as u32, j + 1 < l);
        assert(s[j as int] == varint_byte(u, j as int, l));
    }
    lemma_from_encoding(u, rest, 0);
    lemma_acc_of_encoding(u, rest, (l - 1) as u32);
    lemma_low_groups_full(u);
    assert((v as u32) as i32 == v) by (bit_vector);
}

proof fn lemma_from_encoding(u: u32, rest: Seq<u8>, j: nat)
    requires
        j < varint_len(u),
        forall|i: nat| i < varint_len(u) ==> (#[trigger] (spec_varint(u) + rest)[i as int] & 0x80
            == 0) == (i + 1 == varint_len(u)),
    ensures
        varint_from(spec_varint(u) + rest, j) == Ok::<(u32, nat), VarintError>(
            (varint_acc(spec_varint(u) + rest, varint_len(u) - 1), varint_len(u)),
        ),
    decreases varint_len(u) - j,
{
    let s = spec_varint(u) + rest;
    assert(s[j as int] & 0x80 == 0 <==> j + 1 == varint_len(u));
    if j + 1 < varint_len(u) {
        lemma_from_encoding(u, rest, j + 1);
    }
}


/// The server message as the status reply gives it: a string, or a JSON text
/// component (`text`, then the components of `extra`), or a list of them.
/// Anything else (numbers, ...) carries no text.
#[derive(Debug)]
pub enum Chat {
    Text(String),
    /// A component: its `text` member, and the members of `extra` when it is
    /// a list.
    Component { text: Option<Box<Chat>>, extra: Vec<Chat> },
    List(Vec<Chat>),
    Other,
}

/// The text of a message, in reading order, colour codes included.
pub open spec fn chat_text(c: Chat) -> Seq<char>
    decreases c,
{
    match c {
        Chat::Text(s) => s@,
        Chat::Component { text, extra } => {
            let head = match text {
                Some(t) => chat_text(*t),
                None => Seq::empty(),
            };
            head + chats_text(extra@)
        },
        Chat::List(items) => chats_text(items@),
        Chat::Other => Seq::empty(),
    }
}

/// The text of a list of messages, one after the other.
pub open spec fn chats_text(l: Seq<Chat>) -> Seq<char>
    decreases l,
{
    if l.len() == 0 {
        Seq::empty()
    } else {
        chats_text(l.drop_last()) + chat_text(l.last())
    }
}

/// `s` without its colour codes: each `§` is dropped with the character
/// that follows it.
pub open spec fn strip_codes(s: Seq<char>) -> Seq<char>
    decreases s.len(),
{
    if s.len() == 0 {
        Seq::empty()
    } else if s[0] == '§' {
        if s.len() == 1 {
            Seq::empty()
        } else {
            strip_codes(s.subrange(2, s.len() as int))
        }
    } else {
        seq![s[0]] + strip_codes(s.drop_first())
    }
}

fn walk(c: &Chat, out: &mut Vec<char>)
    ensures
        final(out)@ == old(out)@ + chat_text(*c),
    decreases c,
{
    match c {
        Chat::Text(s) => {
            let v = crate::text::to_chars(s.as_str());
            let mut i: usize = 0;
            let ghost start = out@;
            while i < v.len()
                invariant
                    i <= v@.len(),
                    out@ == start + v@.subrange(0, i as int),
                decreases v.len() - i,
            {
                out.push(v[i]);
                assert(v@.subrange(0, i + 1) =~= v@.subrange(0, i as int).push(v@[i as int]));
                i = i + 1;
            }
            assert(v@.subrange(0, v@.len() as int) =~= v@);
        },
        Chat::Component { text, extra } => {
            let ghost start = out@;
            match text {
                Some(t) => walk(t, out),
                None => {},
            }
            let ghost mid = out@;
            walk_all(extra, out);
            assert(out@ =~= start + chat_text(*c));
        },
        Chat::List(items) => walk_all(items, out),
        Chat::Other => {
            assert(out@ =~= old(out)@ + chat_text(*c));
        },
    }
}

fn walk_all(l: &Vec<Chat>, out: &mut Vec<char>)
    ensures
        final(out)@ == old(out)@ + chats_text(l@),
    decreases l,
{
    let mut i: usize = 0;
    let ghost start = out@;
    while i < l.len()
        invariant
            i <= l@.len(),
            out@ == start + chats_text(l@.subrange(0, i as int)),
        decreases l.len() - i,
    {
        assert(decreases_to!(l => l@[i as int]));
        walk(&l[i], out);
        assert(l@.subrange(0, i + 1).drop_last() =~= l@.subrange(0, i as int));
        i = i + 1;
    }
    assert(l@.subrange(0, l@.len() as int) =~= l@);
}

/// The message of the server as plain text: the texts of its components,
/// colour codes (`§x`) removed, then trimmed.
pub fn plain_text(c: &Chat) -> (r: String)
    ensures
        r@ == spec_trim(strip_codes(chat_text(*c))),
{
    let mut raw: Vec<char> = Vec::new();
    walk(c, &mut raw);
    assert(raw@ =~= chat_text(*c));
    let mut out: Vec<char> = Vec::new();
    let mut i: usize = 0;
    assert(raw@.subrange(0, raw@.len() as int) =~= raw@);
    assert(out@ + strip_codes(raw@) =~= strip_codes(raw@));
    while i < raw.len()
        invariant
            i <= raw@.len(),
            out@ + strip_codes(raw@.subrange(i as int, raw@.len() as int)) == strip_codes(raw@),
        decreases raw.len() - i,
    {
        let ghost rest = raw@.subrange(i as int, raw@.len() as int);
        if raw[i] == '§' {
            if i + 1 < raw.len() {
                assert(rest.subrange(2, rest.len() as int) =~= raw@.subrange(i + 2, raw@.len() as int));
                i = i + 2;
            } else {
                assert(raw@.subrange(i + 1, raw@.len() as int) =~= Seq::<char>::empty());
                i = i + 1;
            }
        } else {
            out.push(raw[i]);
            assert(rest.drop_first() =~= raw@.subrange(i + 1, raw@.len() as int));
            assert(out@ + strip_codes(raw@.subrange(i + 1, raw@.len() as int)) =~= out@.drop_last() + strip_codes(rest));
            i = i + 1;
        }
    }
    assert(raw@.subrange(i as int, raw@.len() as int) =~= Seq::<char>::empty());
    assert(out@ + strip_codes(Seq::<char>::empty()) =~= out@);
    trim_chars(&out)
}


/// A packet: its length (a VarInt), then its id (a VarInt) and its body.
pub open spec fn spec_packet(id: i32, body: Seq<u8>) -> Seq<u8> {
    let inner = spec_varint(id as u32) + body;
    spec_varint((inner.len() as i32) as u32) + inner
}

/// Frames `body` as the packet `id`.
pub fn packet(id: i32, body: &[u8]) -> (out: Vec<u8>)
    ensures
        out@ == spec_packet(id, body@),
{
    let mut inner: Vec<u8> = Vec::new();
    write_varint(&mut inner, id);
    let mut i: usize = 0;
    let ghost head = inner@;
    while i < body.len()
        invariant
            i <= body@.len(),
            inner@ == head + body@.subrange(0, i as int),
        decreases body.len() - i,
    {
        inner.push(body[i]);
        assert(body@.subrange(0, i + 1) =~= body@.subrange(0, i as int).push(body@[i as int]));
        i = i + 1;
    }
    assert(body@.subrange(0, body@.len() as int) =~= body@);
    let mut out: Vec<u8> = Vec::new();
    #[verifier::truncate]
    let n = inner.len() as i32;
    write_varint(&mut out, n);
    out.append(&mut inner);
    assert(out@ =~= spec_packet(id, body@));
    out
}

/// The handshake body: protocol version -1 ("any"), the host (its length,
/// then its UTF-8 bytes), the port (big-endian), and next state 1 (status).
pub open spec fn spec_handshake(host: Seq<char>, port: u16) -> Seq<u8> {
    let bytes = vstd::utf8::encode_utf8(host);
    spec_varint((-1i32) as u32) + spec_varint((bytes.len() as i32) as u32) + bytes
        + seq![(port >> 8u16) as u8, (port & 0xff) as u8] + spec_varint(1u32)
}

/// What the launcher sends first: the handshake packet, then the status
/// request (packet 0, empty).
pub open spec fn spec_status_request(host: Seq<char>, port: u16) -> Seq<u8> {
    spec_packet(0, spec_handshake(host, port)) + spec_packet(0, Seq::empty())
}

/// The bytes that open a status query to `host:port`.
pub fn status_request(host: &str, port: u16) -> (out: Vec<u8>)
    ensures
        out@ == spec_status_request(host@, port),
{
    let bytes = host.as_bytes();
    let mut hs: Vec<u8> = Vec::new();
    write_varint(&mut hs, -1);
    #[verifier::truncate]
    let n = bytes.len() as i32;
    write_varint(&mut hs, n);
    let mut i: usize = 0;
    let ghost head = hs@;
    while i < bytes.len()
        invariant
            i <= bytes@.len(),
            hs@ == head + bytes@.subrange(0, i as int),
        decreases bytes.len() - i,
    {
        hs.push(bytes[i]);
        assert(bytes@.subrange(0, i + 1) =~= bytes@.subrange(0, i as int).push(bytes@[i as int]));
        i = i + 1;
    }
    assert(bytes@.subrange(0, bytes@.len() as int) =~= bytes@);
    hs.push((port >> 8) as u8);
    hs.push((port & 0xff) as u8);
    write_varint(&mut hs, 1);
    assert(hs@ =~= spec_handshake(host@, port));
    let mut out = packet(0, hs.as_slice());
    let empty: Vec<u8> = Vec::new();
    let mut tail = packet(0, empty.as_slice());
    out.append(&mut tail);
    out
}

/// The value the ping packet carries ("turi"); the pong echoes it.
pub const PING_TOKEN: i64 = 0x7475_7269;

/// The ping packet (id 1), carrying `PING_TOKEN` in big-endian order.
pub fn ping_request() -> (out: Vec<u8>)
    ensures
        out@ == spec_packet(1, seq![0u8, 0u8, 0u8, 0u8, 0x74u8, 0x75u8, 0x72u8, 0x69u8]),
{
    let body: [u8; 8] = [0, 0, 0, 0, 0x74, 0x75, 0x72, 0x69];
    assert(body@ =~= seq![0u8, 0u8, 0u8, 0u8, 0x74u8, 0x75u8, 0x72u8, 0x69u8]);
    packet(1, &body)
}

/// The largest status reply accepted (1 MiB).
pub const MAX_REPLY: i32 = 0x10_0000;

/// Length of the JSON status reply announced by the server, if it is
/// acceptable: a negative length, or one above 1 MiB, is refused.
pub fn reply_len(n: i32) -> (r: Option<usize>)
    ensures
        r == (if 0 <= n <= MAX_REPLY { Some(n as usize) } else { None::<usize> }),
{
    if 0 <= n && n <= MAX_REPLY {
        Some(n as usize)
    } else {
        None
    }
}

/// The status of a server that answered: players online and allowed (0
/// when the reply does not give them; numbers above `u32::MAX` keep their
/// low 32 bits), version name (empty when absent), message, latency.
pub fn online_status(
    players: Option<u64>,
    max_players: Option<u64>,
    version: Option<String>,
    motd: &Chat,
    latency_ms: u64,
) -> (s: ServerStatus)
    ensures
        s.online,
        s.players == (match players { Some(p) => p as u32, None => 0u32 }),
        s.max_players == (match max_players { Some(p) => p as u32, None => 0u32 }),
        s.version@ == (match version { Some(v) => v@, None => Seq::<char>::empty() }),
        s.motd@ == spec_trim(strip_codes(chat_text(*motd))),
        s.latency_ms == latency_ms,
        s.error is None,
{
    #[verifier::truncate]
    let p = match players { Some(p) => p as u32, None => 0 };
    #[verifier::truncate]
    let m = match max_players { Some(p) => p as u32, None => 0 };
    let v = match version { Some(v) => v, None => String::new() };
    ServerStatus {
        online: true,
        players: p,
        max_players: m,
        version: v,
        motd: plain_text(motd),
        latency_ms,
        error: None,
    }
}

/// The status shown when the server could not be reached, with the reason.
pub fn offline(error: String) -> (s: ServerStatus)
    ensures
        !s.online,
        s.players == 0,
        s.max_players == 0,
        s.version@ == Seq::<char>::empty(),
        s.motd@ == Seq::<char>::empty(),
        s.latency_ms == 0,
        s.error == Some(error),
{
    ServerStatus {
        online: false,
        players: 0,
        max_players: 0,
        version: String::new(),
        motd: String::new(),
        latency_ms: 0,
        error: Some(error),
    }
}

} // verus!
