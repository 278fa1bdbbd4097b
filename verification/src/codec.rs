//! Binary codec for the wire messages.
//!
//! Every message travels as exactly one binary frame holding exactly one
//! encoded value.  The layout is fixed here and nowhere else:
//!
//! * `u32` / `u64`: little-endian bytes;
//! * `i32`: two's-complement image in a `u32`, then little-endian;
//! * `char`: its Unicode scalar value as a `u32`;
//! * string: `u64` character count, then each character;
//! * `Position`: `x`, `y`, then one byte for the facing ordinal;
//! * message: one tag byte, then the fields of that variant.
//!
//! The spec-level encoder and decoder below are the contract that the
//! executable pair is proved against.  [`lemma_client_round_trip`] /
//! [`lemma_server_round_trip`] prove that decoding undoes encoding, and
//! [`lemma_client_decode_exact`] / [`lemma_server_decode_exact`] prove the
//! format canonical: whatever the decoder accepts is the encoding of what it
//! returns, so a frame decodes successfully exactly when it is the encoding
//! of some message.

use vstd::prelude::*;
use vstd::utf8::is_scalar;
use crate::messages::{
    ClientMsgView, ClientToServerMessage, Position, ServerMsgView, ServerToClientMessage,
    spec_dir_code, spec_dir_from_code, dir_code, dir_from_code,
};

verus! {

// ---------------------------------------------------------------------------
// Little-endian integers
// ---------------------------------------------------------------------------

/// The four little-endian bytes of a `u32`.
pub open spec fn le4(n: u32) -> Seq<u8> {
    seq![
        (n & 0xff) as u8,
        ((n >> 8) & 0xff) as u8,
        ((n >> 16) & 0xff) as u8,
        ((n >> 24) & 0xff) as u8,
    ]
}

/// The `u32` assembled from four little-endian bytes.
pub open spec fn u32_of_le(b0: u8, b1: u8, b2: u8, b3: u8) -> u32 {
    (b0 as u32) | ((b1 as u32) << 8) | ((b2 as u32) << 16) | ((b3 as u32) << 24)
}

/// The eight little-endian bytes of a `u64`.
pub open spec fn le8(n: u64) -> Seq<u8> {
    seq![
        (n & 0xff) as u8,
        ((n >> 8) & 0xff) as u8,
        ((n >> 16) & 0xff) as u8,
        ((n >> 24) & 0xff) as u8,
        ((n >> 32) & 0xff) as u8,
        ((n >> 40) & 0xff) as u8,
        ((n >> 48) & 0xff) as u8,
        ((n >> 56) & 0xff) as u8,
    ]
}

/// The `u64` assembled from eight little-endian bytes.
pub open spec fn u64_of_le(b: Seq<u8>) -> u64
    recommends
        b.len() == 8,
{
    (b[0] as u64) | ((b[1] as u64) << 8) | ((b[2] as u64) << 16) | ((b[3] as u64) << 24) | ((
    b[4] as u64) << 32) | ((b[5] as u64) << 40) | ((b[6] as u64) << 48) | ((b[7] as u64) << 56)
}

/// Reassembling the little-endian bytes of a `u32` gives the value back.
pub proof fn lemma_le4_round_trip(n: u32)
    ensures
        u32_of_le(le4(n)[0], le4(n)[1], le4(n)[2], le4(n)[3]) == n,
{
    assert(((n & 0xff) as u8 as u32) | ((((n >> 8) & 0xff) as u8 as u32) << 8) | ((((n >> 16)
        & 0xff) as u8 as u32) << 16) | ((((n >> 24) & 0xff) as u8 as u32) << 24) == n)
        by (bit_vector);
}

/// Reassembling the little-endian bytes of a `u64` gives the value back.
pub proof fn lemma_le8_round_trip(n: u64)
    ensures
        u64_of_le(le8(n)) == n,
{
    assert(((n & 0xff) as u8 as u64) | ((((n >> 8) & 0xff) as u8 as u64) << 8) | ((((n >> 16)
        & 0xff) as u8 as u64) << 16) | ((((n >> 24) & 0xff) as u8 as u64) << 24) | ((((n >> 32)
        & 0xff) as u8 as u64) << 32) | ((((n >> 40) & 0xff) as u8 as u64) << 40) | ((((n >> 48)
        & 0xff) as u8 as u64) << 48) | ((((n >> 56) & 0xff) as u8 as u64) << 56) == n)
        by (bit_vector);
}

/// The two's-complement image of an `i32` in a `u32`.
pub open spec fn spec_u32_of_i32(x: i32) -> u32 {
    if x >= 0 {
        x as u32
    } else {
        ((x as int) + 0x1_0000_0000) as u32
    }
}

/// The `i32` whose two's-complement image a `u32` is.
pub open spec fn spec_i32_of_u32(u: u32) -> i32 {
    if u <= 0x7fff_ffff {
        u as i32
    } else {
        ((u as int) - 0x1_0000_0000) as i32
    }
}

/// The two's-complement image is undone exactly.
pub proof fn lemma_i32_round_trip(x: i32)
    ensures
        spec_i32_of_u32(spec_u32_of_i32(x)) == x,
{
}

fn u32_from_i32(x: i32) -> (u: u32)
    ensures
        u == spec_u32_of_i32(x),
{
    if x >= 0 {
        x as u32
    } else {
        ((x as i64) + 0x1_0000_0000i64) as u32
    }
}

fn i32_from_u32(u: u32) -> (x: i32)
    ensures
        x == spec_i32_of_u32(u),
{
    if u <= 0x7fff_ffff {
        u as i32
    } else {
        ((u as i64) - 0x1_0000_0000i64) as i32
    }
}

fn push_u32_le(out: &mut Vec<u8>, n: u32)
    ensures
        final(out)@ == old(out)@ + le4(n),
{
    proof {
        assert(n & 0xff < 256 && (n >> 8) & 0xff < 256 && (n >> 16) & 0xff < 256 && (n >> 24)
            & 0xff < 256) by (bit_vector);
    }
    out.push((n & 0xff) as u8);
    out.push(((n >> 8) & 0xff) as u8);
    out.push(((n >> 16) & 0xff) as u8);
    out.push(((n >> 24) & 0xff) as u8);
    proof {
        assert(out@ =~= old(out)@ + le4(n));
    }
}

fn push_u64_le(out: &mut Vec<u8>, n: u64)
    ensures
        final(out)@ == old(out)@ + le8(n),
{
    proof {
        assert(n & 0xff < 256 && (n >> 8) & 0xff < 256 && (n >> 16) & 0xff < 256 && (n >> 24)
            & 0xff < 256 && (n >> 32) & 0xff < 256 && (n >> 40) & 0xff < 256 && (n >> 48) & 0xff
            < 256 && (n >> 56) & 0xff < 256) by (bit_vector);
    }
    out.push((n & 0xff) as u8);
    out.push(((n >> 8) & 0xff) as u8);
    out.push(((n >> 16) & 0xff) as u8);
    out.push(((n >> 24) & 0xff) as u8);
    out.push(((n >> 32) & 0xff) as u8);
    out.push(((n >> 40) & 0xff) as u8);
    out.push(((n >> 48) & 0xff) as u8);
    out.push(((n >> 56) & 0xff) as u8);
    proof {
        assert(out@ =~= old(out)@ + le8(n));
    }
}

// ---------------------------------------------------------------------------
// Trusted bridges to std (vstd gives these two functions no specification)
// ---------------------------------------------------------------------------

/// Relies on `char::from_u32`: `Some` exactly on Unicode scalar values, and
/// the returned character casts back to the argument.
#[verifier::external_body]
fn char_from_u32(u: u32) -> (r: Option<char>)
    ensures
        r is Some <==> is_scalar(u),
        r matches Some(c) ==> c as u32 == u,
{
    char::from_u32(u)
}

/// Relies on `String::push`: appends exactly one character at the end.
#[verifier::external_body]
fn string_push(s: &mut String, c: char)
    ensures
        final(s)@ == old(s)@.push(c),
{
    s.push(c);
}

// ---------------------------------------------------------------------------
// Cursor-style spec decoders
// ---------------------------------------------------------------------------

/// Reads a `u32` at `i`; on success yields the value and the next offset.
pub open spec fn dec_u32_at(s: Seq<u8>, i: int) -> Option<(u32, int)> {
    if 0 <= i && i + 4 <= s.len() {
        Some((u32_of_le(s[i], s[i + 1], s[i + 2], s[i + 3]), i + 4))
    } else {
        None
    }
}

/// Reads a `u64` at `i`; on success yields the value and the next offset.
pub open spec fn dec_u64_at(s: Seq<u8>, i: int) -> Option<(u64, int)> {
    if 0 <= i && i + 8 <= s.len() {
        Some((u64_of_le(s.subrange(i, i + 8)), i + 8))
    } else {
        None
    }
}

fn read_u32_le(bytes: &Vec<u8>, pos: &mut usize) -> (r: Option<u32>)
    requires
        *old(pos) <= bytes.len(),
    ensures
        *final(pos) <= bytes.len(),
        match dec_u32_at(bytes@, *old(pos) as int) {
            Some(v) => r == Some(v.0) && *final(pos) == v.1,
            None => r is None,
        },
{
    if bytes.len() - *pos < 4 {
        return None;
    }
    let b0 = bytes[*pos];
    let b1 = bytes[*pos + 1];
    let b2 = bytes[*pos + 2];
    let b3 = bytes[*pos + 3];
    *pos = *pos + 4;
    Some((b0 as u32) | ((b1 as u32) << 8) | ((b2 as u32) << 16) | ((b3 as u32) << 24))
}

fn read_u64_le(bytes: &Vec<u8>, pos: &mut usize) -> (r: Option<u64>)
    requires
        *old(pos) <= bytes.len(),
    ensures
        *final(pos) <= bytes.len(),
        match dec_u64_at(bytes@, *old(pos) as int) {
            Some(v) => r == Some(v.0) && *final(pos) == v.1,
            None => r is None,
        },
{
    if bytes.len() - *pos < 8 {
        return None;
    }
    let b0 = bytes[*pos];
    let b1 = bytes[*pos + 1];
    let b2 = bytes[*pos + 2];
    let b3 = bytes[*pos + 3];
    let b4 = bytes[*pos + 4];
    let b5 = bytes[*pos + 5];
    let b6 = bytes[*pos + 6];
    let b7 = bytes[*pos + 7];
    let r = (b0 as u64) | ((b1 as u64) << 8) | ((b2 as u64) << 16) | ((b3 as u64) << 24) | ((
    b4 as u64) << 32) | ((b5 as u64) << 40) | ((b6 as u64) << 48) | ((b7 as u64) << 56);
    proof {
        assert(bytes@.subrange(*pos as int, *pos + 8)[0] == bytes@[*pos as int]);
        assert(r == u64_of_le(bytes@.subrange(*pos as int, *pos + 8)));
    }
    *pos = *pos + 8;
    Some(r)
}

// ---------------------------------------------------------------------------
// Characters and strings
// ---------------------------------------------------------------------------

/// A character on the wire: its scalar value, little-endian.
pub open spec fn enc_char(c: char) -> Seq<u8> {
    le4(c as u32)
}

/// Reads one character at `i`: a `u32` that must be a Unicode scalar value.
pub open spec fn dec_char_at(s: Seq<u8>, i: int) -> Option<(char, int)> {
    match dec_u32_at(s, i) {
        Some(v) => if is_scalar(v.0) {
            Some((v.0 as char, v.1))
        } else {
            None
        },
        None => None,
    }
}

/// The characters of a string, encoded one after the other.
pub open spec fn enc_chars(cs: Seq<char>) -> Seq<u8>
    decreases cs.len(),
{
    if cs.len() == 0 {
        Seq::empty()
    } else {
        enc_char(cs[0]) + enc_chars(cs.drop_first())
    }
}

/// Reads exactly `cnt` characters starting at `i`.
pub open spec fn dec_chars_at(s: Seq<u8>, i: int, cnt: nat) -> Option<(Seq<char>, int)>
    decreases cnt,
{
    if cnt == 0 {
        Some((Seq::empty(), i))
    } else {
        match dec_char_at(s, i) {
            Some(c) => match dec_chars_at(s, c.1, (cnt - 1) as nat) {
                Some(rest) => Some((seq![c.0] + rest.0, rest.1)),
                None => None,
            },
            None => None,
        }
    }
}

/// A string on the wire: its character count as a `u64`, then its characters.
pub open spec fn enc_string(t: Seq<char>) -> Seq<u8> {
    le8(t.len() as u64) + enc_chars(t)
}

/// Reads a string at `i`: a count, then that many characters.
pub open spec fn dec_string_at(s: Seq<u8>, i: int) -> Option<(Seq<char>, int)> {
    match dec_u64_at(s, i) {
        Some(n) => dec_chars_at(s, n.1, n.0 as nat),
        None => None,
    }
}

/// Encoding a string extended by one character appends that character's bytes.
proof fn lemma_enc_chars_snoc(cs: Seq<char>, c: char)
    ensures
        enc_chars(cs.push(c)) == enc_chars(cs) + enc_char(c),
    decreases cs.len(),
{
    if cs.len() == 0 {
        assert(cs.push(c)[0] == c);
        assert(cs.push(c).drop_first() =~= Seq::<char>::empty());
        assert(enc_chars(Seq::<char>::empty()) == Seq::<u8>::empty());
        assert(enc_chars(cs.push(c)) == enc_char(c) + Seq::<u8>::empty());
        assert(enc_chars(cs.push(c)) =~= enc_chars(cs) + enc_char(c));
    } else {
        assert(cs.push(c)[0] == cs[0]);
        assert(cs.push(c).drop_first() =~= cs.drop_first().push(c));
        lemma_enc_chars_snoc(cs.drop_first(), c);
        assert(enc_chars(cs.push(c)) == enc_char(cs[0]) + (enc_chars(cs.drop_first()) + enc_char(
            c,
        )));
        assert(enc_chars(cs.push(c)) =~= enc_chars(cs) + enc_char(c));
    }
}

fn push_char(out: &mut Vec<u8>, c: char)
    ensures
        final(out)@ == old(out)@ + enc_char(c),
{
    push_u32_le(out, c as u32);
}

fn push_string(out: &mut Vec<u8>, t: &String)
    ensures
        final(out)@ == old(out)@ + enc_string(t@),
{
    let n = t.as_str().unicode_len();
    push_u64_le(out, n as u64);
    let mut k: usize = 0;
    while k < n
        invariant
            k <= n,
            n == t@.len(),
            out@ == old(out)@ + le8(n as u64) + enc_chars(t@.take(k as int)),
        decreases n - k,
    {
        let c = t.as_str().get_char(k);
        push_char(out, c);
        proof {
            assert(t@.take(k + 1) =~= t@.take(k as int).push(t@[k as int]));
            lemma_enc_chars_snoc(t@.take(k as int), t@[k as int]);
        }
        k = k + 1;
    }
    proof {
        assert(t@.take(n as int) =~= t@);
        assert(out@ =~= old(out)@ + enc_string(t@));
    }
}

fn read_char(bytes: &Vec<u8>, pos: &mut usize) -> (r: Option<char>)
    requires
        *old(pos) <= bytes.len(),
    ensures
        *final(pos) <= bytes.len(),
        match dec_char_at(bytes@, *old(pos) as int) {
            Some(v) => r == Some(v.0) && *final(pos) == v.1,
            None => r is None,
        },
{
    match read_u32_le(bytes, pos) {
        Some(u) => {
            let r = char_from_u32(u);
            proof {
                if is_scalar(u) {
                    vstd::utf8::char_u32_cast(r->0, u);
                }
            }
            r
        },
        None => None,
    }
}

#[verifier::loop_isolation(false)]
fn read_string(bytes: &Vec<u8>, pos: &mut usize) -> (r: Option<String>)
    requires
        *old(pos) <= bytes.len(),
    ensures
        *final(pos) <= bytes.len(),
        match dec_string_at(bytes@, *old(pos) as int) {
            Some(v) => r matches Some(t) && t@ == v.0 && *final(pos) == v.1,
            None => r is None,
        },
{
    let cnt = match read_u64_le(bytes, pos) {
        Some(n) => n,
        None => {
            return None;
        },
    };
    let ghost j0 = *pos as int;
    let mut acc = String::new();
    let mut k: u64 = 0;
    while k < cnt
        invariant
            k <= cnt,
            *pos <= bytes.len(),
            dec_chars_at(bytes@, j0, cnt as nat) == (match dec_chars_at(
                bytes@,
                *pos as int,
                (cnt - k) as nat,
            ) {
                Some(rest) => Some((acc@ + rest.0, rest.1)),
                None => None::<(Seq<char>, int)>,
            }),
        decreases cnt - k,
    {
        let ghost p_start = *pos as int;
        let c = match read_char(bytes, pos) {
            Some(c) => c,
            None => {
                proof {
                    assert(dec_char_at(bytes@, p_start) is None);
                    assert(dec_chars_at(bytes@, p_start, (cnt - k) as nat) is None);
                }
                return None;
            },
        };
        string_push(&mut acc, c);
        proof {
            assert(acc@ =~= acc@.subrange(0, acc@.len() - 1) + seq![c]);
        }
        k = k + 1;
        proof {
            if let Some(rest) = dec_chars_at(bytes@, *pos as int, (cnt - k) as nat) {
                assert(acc@ + rest.0 =~= acc@.subrange(0, acc@.len() - 1) + (seq![c] + rest.0));
            }
        }
    }
    proof {
        assert(acc@ + Seq::<char>::empty() =~= acc@);
    }
    Some(acc)
}

// ---------------------------------------------------------------------------
// Positions
// ---------------------------------------------------------------------------

/// A position on the wire: `x`, `y`, then the facing ordinal (9 bytes).
pub open spec fn enc_pos(p: Position) -> Seq<u8> {
    le4(spec_u32_of_i32(p.x)) + le4(spec_u32_of_i32(p.y)) + seq![spec_dir_code(p.facing)]
}

/// Reads a position at `i`; the facing byte must be a valid ordinal.
pub open spec fn dec_pos_at(s: Seq<u8>, i: int) -> Option<(Position, int)> {
    match dec_u32_at(s, i) {
        Some(xv) => match dec_u32_at(s, xv.1) {
            Some(yv) => if yv.1 < s.len() {
                match spec_dir_from_code(s[yv.1]) {
                    Some(d) => Some(
                        (
                            Position {
                                x: spec_i32_of_u32(xv.0),
                                y: spec_i32_of_u32(yv.0),
                                facing: d,
                            },
                            yv.1 + 1,
                        ),
                    ),
                    None => None,
                }
            } else {
                None
            },
            None => None,
        },
        None => None,
    }
}

fn push_pos(out: &mut Vec<u8>, p: &Position)
    ensures
        final(out)@ == old(out)@ + enc_pos(*p),
{
    push_u32_le(out, u32_from_i32(p.x));
    push_u32_le(out, u32_from_i32(p.y));
    out.push(dir_code(p.facing));
    proof {
        assert(out@ =~= old(out)@ + enc_pos(*p));
    }
}

fn read_pos(bytes: &Vec<u8>, pos: &mut usize) -> (r: Option<Position>)
    requires
        *old(pos) <= bytes.len(),
    ensures
        *final(pos) <= bytes.len(),
        match dec_pos_at(bytes@, *old(pos) as int) {
            Some(v) => r == Some(v.0) && *final(pos) == v.1,
            None => r is None,
        },
{
    let x = match read_u32_le(bytes, pos) {
        Some(u) => i32_from_u32(u),
        None => {
            return None;
        },
    };
    let y = match read_u32_le(bytes, pos) {
        Some(u) => i32_from_u32(u),
        None => {
            return None;
        },
    };
    if *pos >= bytes.len() {
        return None;
    }
    let d = match dir_from_code(bytes[*pos]) {
        Some(d) => d,
        None => {
            return None;
        },
    };
    *pos = *pos + 1;
    Some(Position { x, y, facing: d })
}

// ---------------------------------------------------------------------------
// Whole messages
// ---------------------------------------------------------------------------

/// A client request on the wire: a tag byte, then the variant's fields.
pub open spec fn enc_client(m: ClientMsgView) -> Seq<u8> {
    match m {
        ClientMsgView::Chat { text } => seq![0u8] + enc_string(text),
        ClientMsgView::MoveTo { pos } => seq![1u8] + enc_pos(pos),
    }
}

/// A server reply on the wire: a tag byte, then the variant's fields.
pub open spec fn enc_server(m: ServerMsgView) -> Seq<u8> {
    match m {
        ServerMsgView::Initialize { id } => seq![0u8] + enc_string(id),
        ServerMsgView::Chat { id, text } => seq![1u8] + enc_string(id) + enc_string(text),
        ServerMsgView::UpdatePlayer { id, pos } => seq![2u8] + enc_string(id) + enc_pos(pos),
        ServerMsgView::DeletePlayer { id } => seq![3u8] + enc_string(id),
    }
}

/// Decodes a whole frame as a client request; the frame must hold exactly
/// one message, with nothing left over.
pub open spec fn dec_client(s: Seq<u8>) -> Option<ClientMsgView> {
    if s.len() == 0 {
        None
    } else if s[0] == 0 {
        match dec_string_at(s, 1) {
            Some(v) => if v.1 == s.len() {
                Some(ClientMsgView::Chat { text: v.0 })
            } else {
                None
            },
            None => None,
        }
    } else if s[0] == 1 {
        match dec_pos_at(s, 1) {
            Some(v) => if v.1 == s.len() {
                Some(ClientMsgView::MoveTo { pos: v.0 })
            } else {
                None
            },
            None => None,
        }
    } else {
        None
    }
}

/// Decodes a whole frame as a server reply; the frame must hold exactly
/// one message, with nothing left over.
pub open spec fn dec_server(s: Seq<u8>) -> Option<ServerMsgView> {
    if s.len() == 0 {
        None
    } else if s[0] == 0 {
        match dec_string_at(s, 1) {
            Some(v) => if v.1 == s.len() {
                Some(ServerMsgView::Initialize { id: v.0 })
            } else {
                None
            },
            None => None,
        }
    } else if s[0] == 1 {
        match dec_string_at(s, 1) {
            Some(v1) => match dec_string_at(s, v1.1) {
                Some(v2) => if v2.1 == s.len() {
                    Some(ServerMsgView::Chat { id: v1.0, text: v2.0 })
                } else {
                    None
                },
                None => None,
            },
            None => None,
        }
    } else if s[0] == 2 {
        match dec_string_at(s, 1) {
            Some(v1) => match dec_pos_at(s, v1.1) {
                Some(v2) => if v2.1 == s.len() {
                    Some(ServerMsgView::UpdatePlayer { id: v1.0, pos: v2.0 })
                } else {
                    None
                },
                None => None,
            },
            None => None,
        }
    } else if s[0] == 3 {
        match dec_string_at(s, 1) {
            Some(v) => if v.1 == s.len() {
                Some(ServerMsgView::DeletePlayer { id: v.0 })
            } else {
                None
            },
            None => None,
        }
    } else {
        None
    }
}

/// Encodes a client request as one binary frame.
pub fn encode_client_message(m: &ClientToServerMessage) -> (out: Vec<u8>)
    ensures
        out@ == enc_client(m@),
{
    let mut out: Vec<u8> = Vec::new();
    match m {
        ClientToServerMessage::Chat { text } => {
            out.push(0u8);
            push_string(&mut out, text);
        },
        ClientToServerMessage::MoveTo { pos } => {
            out.push(1u8);
            push_pos(&mut out, pos);
        },
    }
    proof {
        assert(out@ =~= enc_client(m@));
    }
    out
}

/// Encodes a server reply as one binary frame.
pub fn encode_server_message(m: &ServerToClientMessage) -> (out: Vec<u8>)
    ensures
        out@ == enc_server(m@),
{
    let mut out: Vec<u8> = Vec::new();
    match m {
        ServerToClientMessage::Initialize { id } => {
            out.push(0u8);
            push_string(&mut out, id);
        },
        ServerToClientMessage::Chat { id, text } => {
            out.push(1u8);
            push_string(&mut out, id);
            push_string(&mut out, text);
        },
        ServerToClientMessage::UpdatePlayer { id, pos } => {
            out.push(2u8);
            push_string(&mut out, id);
            push_pos(&mut out, pos);
        },
        ServerToClientMessage::DeletePlayer { id } => {
            out.push(3u8);
            push_string(&mut out, id);
        },
    }
    proof {
        assert(out@ =~= enc_server(m@));
    }
    out
}

/// Decodes one binary frame as a client request.  `None` exactly when the
/// frame is not the encoding of any client request.
pub fn decode_client_message(bytes: &Vec<u8>) -> (r: Option<ClientToServerMessage>)
    ensures
        match r {
            Some(m) => dec_client(bytes@) == Some(m@),
            None => dec_client(bytes@) is None,
        },
{
    if bytes.len() == 0 {
        return None;
    }
    let tag = bytes[0];
    let mut pos: usize = 1;
    if tag == 0 {
        let text = match read_string(bytes, &mut pos) {
            Some(t) => t,
            None => {
                return None;
            },
        };
        if pos != bytes.len() {
            return None;
        }
        Some(ClientToServerMessage::Chat { text })
    } else if tag == 1 {
        let p = match read_pos(bytes, &mut pos) {
            Some(p) => p,
            None => {
                return None;
            },
        };
        if pos != bytes.len() {
            return None;
        }
        Some(ClientToServerMessage::MoveTo { pos: p })
    } else {
        None
    }
}

/// Decodes one binary frame as a server reply.  `None` exactly when the
/// frame is not the encoding of any server reply.
pub fn decode_server_message(bytes: &Vec<u8>) -> (r: Option<ServerToClientMessage>)
    ensures
        match r {
            Some(m) => dec_server(bytes@) == Some(m@),
            None => dec_server(bytes@) is None,
        },
{
    if bytes.len() == 0 {
        return None;
    }
    let tag = bytes[0];
    let mut pos: usize = 1;
    if tag == 0 {
        let id = match read_string(bytes, &mut pos) {
            Some(t) => t,
            None => {
                return None;
            },
        };
        if pos != bytes.len() {
            return None;
        }
        Some(ServerToClientMessage::Initialize { id })
    } else if tag == 1 {
        let id = match read_string(bytes, &mut pos) {
            Some(t) => t,
            None => {
                return None;
            },
        };
        let text = match read_string(bytes, &mut pos) {
            Some(t) => t,
            None => {
                return None;
            },
        };
        if pos != bytes.len() {
            return None;
        }
        Some(ServerToClientMessage::Chat { id, text })
    } else if tag == 2 {
        let id = match read_string(bytes, &mut pos) {
            Some(t) => t,
            None => {
                return None;
            },
        };
        let p = match read_pos(bytes, &mut pos) {
            Some(p) => p,
            None => {
                return None;
            },
        };
        if pos != bytes.len() {
            return None;
        }
        Some(ServerToClientMessage::UpdatePlayer { id, pos: p })
    } else if tag == 3 {
        let id = match read_string(bytes, &mut pos) {
            Some(t) => t,
            None => {
                return None;
            },
        };
        if pos != bytes.len() {
            return None;
        }
        Some(ServerToClientMessage::DeletePlayer { id })
    } else {
        None
    }
}

// ---------------------------------------------------------------------------
// Round trip: decoding undoes encoding
// ---------------------------------------------------------------------------

/// Character encodings take four bytes each.
pub proof fn lemma_enc_chars_len(cs: Seq<char>)
    ensures
        enc_chars(cs).len() == 4 * cs.len(),
    decreases cs.len(),
{
    if cs.len() > 0 {
        lemma_enc_chars_len(cs.drop_first());
    }
}

/// A string encoding takes eight bytes for the count plus four per character.
pub proof fn lemma_enc_string_len(t: Seq<char>)
    ensures
        enc_string(t).len() == 8 + 4 * t.len(),
{
    lemma_enc_chars_len(t);
}

/// Spells out, index by index, what it means for `t` to sit inside `s` at `i`.
proof fn lemma_subrange_index(s: Seq<u8>, i: int, t: Seq<u8>)
    requires
        0 <= i,
        i + t.len() <= s.len(),
        s.subrange(i, i + t.len()) == t,
    ensures
        forall|k: int| 0 <= k < t.len() ==> #[trigger] s[i + k] == t[k],
{
    assert forall|k: int| 0 <= k < t.len() implies #[trigger] s[i + k] == t[k] by {
        assert(s.subrange(i, i + t.len())[k] == s[i + k]);
    }
}

proof fn lemma_dec_u32_of_enc(s: Seq<u8>, i: int, n: u32)
    requires
        0 <= i,
        i + 4 <= s.len(),
        s.subrange(i, i + 4) == le4(n),
    ensures
        dec_u32_at(s, i) == Some((n, i + 4)),
{
    assert(s[i] == le4(n)[0]);
    assert(s[i + 1] == le4(n)[1]);
    assert(s[i + 2] == le4(n)[2]);
    assert(s[i + 3] == le4(n)[3]);
    lemma_le4_round_trip(n);
}

proof fn lemma_dec_u64_of_enc(s: Seq<u8>, i: int, n: u64)
    requires
        0 <= i,
        i + 8 <= s.len(),
        s.subrange(i, i + 8) == le8(n),
    ensures
        dec_u64_at(s, i) == Some((n, i + 8)),
{
    lemma_le8_round_trip(n);
}

proof fn lemma_dec_char_of_enc(s: Seq<u8>, i: int, c: char)
    requires
        0 <= i,
        i + 4 <= s.len(),
        s.subrange(i, i + 4) == enc_char(c),
    ensures
        dec_char_at(s, i) == Some((c, i + 4)),
{
    lemma_dec_u32_of_enc(s, i, c as u32);
    vstd::utf8::char_is_scalar(c);
    vstd::utf8::char_u32_cast(c, c as u32);
}

proof fn lemma_dec_chars_of_enc(s: Seq<u8>, i: int, cs: Seq<char>)
    requires
        0 <= i,
        i + 4 * cs.len() <= s.len(),
        s.subrange(i, i + 4 * cs.len()) == enc_chars(cs),
    ensures
        dec_chars_at(s, i, cs.len()) == Some((cs, i + 4 * cs.len())),
    decreases cs.len(),
{
    if cs.len() == 0 {
        assert(dec_chars_at(s, i, 0) == Some((Seq::<char>::empty(), i)));
        assert(cs =~= Seq::<char>::empty());
    } else {
        lemma_enc_chars_len(cs);
        lemma_enc_chars_len(cs.drop_first());
        lemma_subrange_index(s, i, enc_chars(cs));
        assert(enc_char(cs[0]).len() == 4);
        assert(s.subrange(i, i + 4) =~= enc_char(cs[0]));
        lemma_dec_char_of_enc(s, i, cs[0]);
        assert forall|k: int| 0 <= k < 4 * cs.drop_first().len() implies s.subrange(
            i + 4,
            i + 4 * cs.len(),
        )[k] == enc_chars(cs.drop_first())[k] by {
            assert(s.subrange(i, i + 4 * cs.len())[4 + k] == enc_chars(cs)[4 + k]);
        }
        assert(s.subrange(i + 4, i + 4 * cs.len()) =~= enc_chars(cs.drop_first()));
        lemma_dec_chars_of_enc(s, i + 4, cs.drop_first());
        assert(seq![cs[0]] + cs.drop_first() =~= cs);
    }
}

proof fn lemma_dec_string_of_enc(s: Seq<u8>, i: int, t: Seq<char>)
    requires
        0 <= i,
        t.len() <= u64::MAX,
        i + 8 + 4 * t.len() <= s.len(),
        s.subrange(i, i + 8 + 4 * t.len()) == enc_string(t),
    ensures
        dec_string_at(s, i) == Some((t, i + 8 + 4 * t.len())),
{
    lemma_enc_chars_len(t);
    lemma_subrange_index(s, i, enc_string(t));
    assert(le8(t.len() as u64).len() == 8);
    assert(s.subrange(i, i + 8) =~= le8(t.len() as u64));
    lemma_dec_u64_of_enc(s, i, t.len() as u64);
    assert forall|k: int| 0 <= k < 4 * t.len() implies s.subrange(i + 8, i + 8 + 4 * t.len())[k]
        == enc_chars(t)[k] by {
        assert(s.subrange(i, i + 8 + 4 * t.len())[8 + k] == enc_string(t)[8 + k]);
    }
    assert(s.subrange(i + 8, i + 8 + 4 * t.len()) =~= enc_chars(t));
    lemma_dec_chars_of_enc(s, i + 8, t);
}

proof fn lemma_dec_pos_of_enc(s: Seq<u8>, i: int, p: Position)
    requires
        0 <= i,
        i + 9 <= s.len(),
        s.subrange(i, i + 9) == enc_pos(p),
    ensures
        dec_pos_at(s, i) == Some((p, i + 9)),
{
    lemma_subrange_index(s, i, enc_pos(p));
    assert(le4(spec_u32_of_i32(p.x)).len() == 4 && le4(spec_u32_of_i32(p.y)).len() == 4);
    assert(s.subrange(i, i + 4) =~= le4(spec_u32_of_i32(p.x)));
    lemma_dec_u32_of_enc(s, i, spec_u32_of_i32(p.x));
    assert forall|k: int| 0 <= k < 4 implies s.subrange(i + 4, i + 8)[k] == le4(
        spec_u32_of_i32(p.y),
    )[k] by {
        assert(s.subrange(i, i + 9)[4 + k] == enc_pos(p)[4 + k]);
    }
    assert(s.subrange(i + 4, i + 8) =~= le4(spec_u32_of_i32(p.y)));
    lemma_dec_u32_of_enc(s, i + 4, spec_u32_of_i32(p.y));
    lemma_i32_round_trip(p.x);
    lemma_i32_round_trip(p.y);
    assert(s[i + 8] == enc_pos(p)[8]);
    assert(enc_pos(p)[8] == spec_dir_code(p.facing));
}

// The reverse direction: a frame the decoder accepts re-encodes to itself,
// so the wire format is canonical.

proof fn lemma_le4_of_dec(b0: u8, b1: u8, b2: u8, b3: u8)
    ensures
        le4(u32_of_le(b0, b1, b2, b3)) == seq![b0, b1, b2, b3],
{
    assert((((b0 as u32) | ((b1 as u32) << 8) | ((b2 as u32) << 16) | ((b3 as u32) << 24)) & 0xff)
        as u8 == b0 && ((((b0 as u32) | ((b1 as u32) << 8) | ((b2 as u32) << 16) | ((
    b3 as u32) << 24)) >> 8) & 0xff) as u8 == b1 && ((((b0 as u32) | ((b1 as u32) << 8) | ((
    b2 as u32) << 16) | ((b3 as u32) << 24)) >> 16) & 0xff) as u8 == b2 && ((((b0 as u32) | ((
    b1 as u32) << 8) | ((b2 as u32) << 16) | ((b3 as u32) << 24)) >> 24) & 0xff) as u8 == b3)
        by (bit_vector);
    assert(le4(u32_of_le(b0, b1, b2, b3)) =~= seq![b0, b1, b2, b3]);
}

proof fn lemma_le8_of_dec(b: Seq<u8>)
    requires
        b.len() == 8,
    ensures
        le8(u64_of_le(b)) == b,
{
    let b0 = b[0];
    let b1 = b[1];
    let b2 = b[2];
    let b3 = b[3];
    let b4 = b[4];
    let b5 = b[5];
    let b6 = b[6];
    let b7 = b[7];
    let x = u64_of_le(b);
    assert(x == (b0 as u64) | ((b1 as u64) << 8) | ((b2 as u64) << 16) | ((b3 as u64) << 24) | ((
    b4 as u64) << 32) | ((b5 as u64) << 40) | ((b6 as u64) << 48) | ((b7 as u64) << 56));
    assert({
        &&& x == (b0 as u64) | ((b1 as u64) << 8) | ((b2 as u64) << 16) | ((b3 as u64) << 24) | ((
        b4 as u64) << 32) | ((b5 as u64) << 40) | ((b6 as u64) << 48) | ((b7 as u64) << 56)
    } ==> {
        &&& (x & 0xff) as u8 == b0
        &&& ((x >> 8) & 0xff) as u8 == b1
        &&& ((x >> 16) & 0xff) as u8 == b2
        &&& ((x >> 24) & 0xff) as u8 == b3
        &&& ((x >> 32) & 0xff) as u8 == b4
        &&& ((x >> 40) & 0xff) as u8 == b5
        &&& ((x >> 48) & 0xff) as u8 == b6
        &&& ((x >> 56) & 0xff) as u8 == b7
    }) by (bit_vector);
    assert(le8(x) =~= b);
}

proof fn lemma_enc_of_dec_u32(s: Seq<u8>, i: int, n: u32, j: int)
    requires
        dec_u32_at(s, i) == Some((n, j)),
    ensures
        j == i + 4,
        i + 4 <= s.len(),
        le4(n) == s.subrange(i, i + 4),
{
    lemma_le4_of_dec(s[i], s[i + 1], s[i + 2], s[i + 3]);
    assert(s.subrange(i, i + 4) =~= seq![s[i], s[i + 1], s[i + 2], s[i + 3]]);
}

proof fn lemma_enc_of_dec_u64(s: Seq<u8>, i: int, n: u64, j: int)
    requires
        dec_u64_at(s, i) == Some((n, j)),
    ensures
        j == i + 8,
        i + 8 <= s.len(),
        le8(n) == s.subrange(i, i + 8),
{
    lemma_le8_of_dec(s.subrange(i, i + 8));
}

proof fn lemma_enc_of_dec_char(s: Seq<u8>, i: int, c: char, j: int)
    requires
        dec_char_at(s, i) == Some((c, j)),
    ensures
        j == i + 4,
        i + 4 <= s.len(),
        enc_char(c) == s.subrange(i, i + 4),
{
    if let Some(v) = dec_u32_at(s, i) {
        assert(is_scalar(v.0) && c == v.0 as char);
        assert(c as u32 == v.0);
        lemma_enc_of_dec_u32(s, i, v.0, v.1);
    }
}

proof fn lemma_enc_of_dec_chars(s: Seq<u8>, i: int, cnt: nat, cs: Seq<char>, j: int)
    requires
        0 <= i <= s.len(),
        dec_chars_at(s, i, cnt) == Some((cs, j)),
    ensures
        cs.len() == cnt,
        j == i + 4 * cnt,
        j <= s.len(),
        enc_chars(cs) == s.subrange(i, j),
    decreases cnt,
{
    if cnt == 0 {
        assert(s.subrange(i, i) =~= Seq::<u8>::empty());
    } else {
        if let Some(cv) = dec_char_at(s, i) {
            lemma_enc_of_dec_char(s, i, cv.0, cv.1);
            if let Some(rest) = dec_chars_at(s, cv.1, (cnt - 1) as nat) {
                lemma_enc_of_dec_chars(s, cv.1, (cnt - 1) as nat, rest.0, rest.1);
                assert(cs == seq![cv.0] + rest.0);
                assert(cs[0] == cv.0);
                assert(cs.drop_first() =~= rest.0);
                assert(enc_chars(cs) == enc_char(cv.0) + enc_chars(rest.0));
                assert(enc_chars(cs) =~= s.subrange(i, j));
            }
        }
    }
}

proof fn lemma_enc_of_dec_string(s: Seq<u8>, i: int, t: Seq<char>, j: int)
    requires
        0 <= i,
        dec_string_at(s, i) == Some((t, j)),
    ensures
        t.len() <= u64::MAX,
        j == i + 8 + 4 * t.len(),
        j <= s.len(),
        enc_string(t) == s.subrange(i, j),
{
    if let Some(nv) = dec_u64_at(s, i) {
        lemma_enc_of_dec_u64(s, i, nv.0, nv.1);
        lemma_enc_of_dec_chars(s, i + 8, nv.0 as nat, t, j);
        assert(t.len() as u64 == nv.0);
        assert(enc_string(t) =~= s.subrange(i, j));
    }
}

proof fn lemma_enc_of_dec_pos(s: Seq<u8>, i: int, p: Position, j: int)
    requires
        dec_pos_at(s, i) == Some((p, j)),
    ensures
        j == i + 9,
        j <= s.len(),
        enc_pos(p) == s.subrange(i, i + 9),
{
    if let Some(xv) = dec_u32_at(s, i) {
        if let Some(yv) = dec_u32_at(s, xv.1) {
            lemma_enc_of_dec_u32(s, i, xv.0, xv.1);
            lemma_enc_of_dec_u32(s, i + 4, yv.0, yv.1);
            assert(spec_u32_of_i32(p.x) == xv.0);
            assert(spec_u32_of_i32(p.y) == yv.0);
            assert(spec_dir_code(p.facing) == s[i + 8]);
            assert(enc_pos(p) =~= s.subrange(i, i + 9));
        }
    }
}

/// Law: the wire format is canonical — a frame the decoder accepts as a
/// client request is exactly the encoding of the request it returns.
pub proof fn lemma_client_decode_exact(s: Seq<u8>, m: ClientMsgView)
    requires
        dec_client(s) == Some(m),
    ensures
        enc_client(m) == s,
        client_msg_wf(m),
{
    if s[0] == 0 {
        if let Some(v) = dec_string_at(s, 1) {
            lemma_enc_of_dec_string(s, 1, v.0, v.1);
            assert(enc_client(m) =~= s);
        }
    } else {
        if let Some(v) = dec_pos_at(s, 1) {
            lemma_enc_of_dec_pos(s, 1, v.0, v.1);
            assert(enc_client(m) =~= s);
        }
    }
}

/// Law: the wire format is canonical — a frame the decoder accepts as a
/// server reply is exactly the encoding of the reply it returns.
pub proof fn lemma_server_decode_exact(s: Seq<u8>, m: ServerMsgView)
    requires
        dec_server(s) == Some(m),
    ensures
        enc_server(m) == s,
        server_msg_wf(m),
{
    if s[0] == 0 {
        if let Some(v) = dec_string_at(s, 1) {
            lemma_enc_of_dec_string(s, 1, v.0, v.1);
            assert(enc_server(m) =~= s);
        }
    } else if s[0] == 1 {
        if let Some(v1) = dec_string_at(s, 1) {
            if let Some(v2) = dec_string_at(s, v1.1) {
                lemma_enc_of_dec_string(s, 1, v1.0, v1.1);
                lemma_enc_of_dec_string(s, v1.1, v2.0, v2.1);
                assert(enc_server(m) =~= s);
            }
        }
    } else if s[0] == 2 {
        if let Some(v1) = dec_string_at(s, 1) {
            if let Some(v2) = dec_pos_at(s, v1.1) {
                lemma_enc_of_dec_string(s, 1, v1.0, v1.1);
                lemma_enc_of_dec_pos(s, v1.1, v2.0, v2.1);
                assert(enc_server(m) =~= s);
            }
        }
    } else {
        if let Some(v) = dec_string_at(s, 1) {
            lemma_enc_of_dec_string(s, 1, v.0, v.1);
            assert(enc_server(m) =~= s);
        }
    }
}

/// A client request whose string fits the wire's length field.
pub open spec fn client_msg_wf(m: ClientMsgView) -> bool {
    match m {
        ClientMsgView::Chat { text } => text.len() <= u64::MAX,
        ClientMsgView::MoveTo { pos: _ } => true,
    }
}

/// A server reply whose strings fit the wire's length fields.
pub open spec fn server_msg_wf(m: ServerMsgView) -> bool {
    match m {
        ServerMsgView::Initialize { id } => id.len() <= u64::MAX,
        ServerMsgView::Chat { id, text } => id.len() <= u64::MAX && text.len() <= u64::MAX,
        ServerMsgView::UpdatePlayer { id, pos: _ } => id.len() <= u64::MAX,
        ServerMsgView::DeletePlayer { id } => id.len() <= u64::MAX,
    }
}

/// Decoding undoes encoding, for every client request.
pub proof fn lemma_client_round_trip(m: ClientMsgView)
    requires
        client_msg_wf(m),
    ensures
        dec_client(enc_client(m)) == Some(m),
{
    match m {
        ClientMsgView::Chat { text } => {
            let s = enc_client(m);
            lemma_enc_string_len(text);
            assert(s[0] == 0);
            assert(s.subrange(1, (1 + 8 + 4 * text.len()) as int) =~= enc_string(text));
            lemma_dec_string_of_enc(s, 1, text);
        },
        ClientMsgView::MoveTo { pos } => {
            let s = enc_client(m);
            assert(s[0] == 1);
            assert(s.subrange(1, 10) =~= enc_pos(pos));
            lemma_dec_pos_of_enc(s, 1, pos);
        },
    }
}

/// Decoding undoes encoding, for every server reply.
pub proof fn lemma_server_round_trip(m: ServerMsgView)
    requires
        server_msg_wf(m),
    ensures
        dec_server(enc_server(m)) == Some(m),
{
    match m {
        ServerMsgView::Initialize { id } => {
            let s = enc_server(m);
            lemma_enc_string_len(id);
            assert(s[0] == 0);
            assert(s.subrange(1, (1 + 8 + 4 * id.len()) as int) =~= enc_string(id));
            lemma_dec_string_of_enc(s, 1, id);
        },
        ServerMsgView::Chat { id, text } => {
            let s = enc_server(m);
            lemma_enc_string_len(id);
            lemma_enc_string_len(text);
            assert(s[0] == 1);
            let j = 1 + 8 + 4 * id.len();
            assert(s.subrange(1, j as int) =~= enc_string(id));
            lemma_dec_string_of_enc(s, 1, id);
            assert(s.subrange(j as int, (j + 8 + 4 * text.len()) as int) =~= enc_string(text));
            lemma_dec_string_of_enc(s, j as int, text);
        },
        ServerMsgView::UpdatePlayer { id, pos } => {
            let s = enc_server(m);
            lemma_enc_string_len(id);
            assert(s[0] == 2);
            let j = 1 + 8 + 4 * id.len();
            assert(s.subrange(1, j as int) =~= enc_string(id));
            lemma_dec_string_of_enc(s, 1, id);
            assert(s.subrange(j as int, (j + 9) as int) =~= enc_pos(pos));
            lemma_dec_pos_of_enc(s, j as int, pos);
        },
        ServerMsgView::DeletePlayer { id } => {
            let s = enc_server(m);
            lemma_enc_string_len(id);
            assert(s[0] == 3);
            assert(s.subrange(1, (1 + 8 + 4 * id.len()) as int) =~= enc_string(id));
            lemma_dec_string_of_enc(s, 1, id);
        },
    }
}

} // verus!
