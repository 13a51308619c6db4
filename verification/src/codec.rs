//! Versioned wire encoding for messages.
//!
//! A frame is one version byte followed by the three message fields, each
//! encoded as an 8-byte little-endian character count followed by one 4-byte
//! little-endian Unicode scalar value per character. A frame whose version
//! byte is unknown is rejected rather than misparsed, and a frame with a
//! truncated field, an invalid scalar value, or trailing bytes after the
//! last field is rejected as malformed.

use vstd::prelude::*;
use vstd::bytes::*;

use crate::message::{MessageView, P2PMessage};

verus! {

/// The current wire version; the first byte of every frame.
pub const WIRE_VERSION: u8 = 1;

/// Outcome of decoding an inbound frame that is not a well-formed message.
#[derive(Clone, Copy, Debug, PartialEq, Eq, Structural)]
pub enum DecodeError {
    /// The frame's version byte is not `WIRE_VERSION`.
    UnsupportedVersion,
    /// The frame is truncated, carries an invalid scalar value, or has
    /// trailing bytes after the last field.
    Malformed,
}

/// A `u32` that is a Unicode scalar value, i.e. the code point of a `char`.
pub open spec fn is_scalar_value(v: u32) -> bool {
    v < 0xD800 || (0xE000 <= v && v <= 0x10FFFF)
}

/// Each character of `s` as its 4-byte little-endian scalar value.
pub open spec fn spec_encode_chars(s: Seq<char>) -> Seq<u8>
    decreases s.len(),
{
    if s.len() == 0 {
        Seq::<u8>::empty()
    } else {
        spec_u32_to_le_bytes(s[0] as u32) + spec_encode_chars(s.skip(1))
    }
}

/// One field: 8-byte little-endian character count, then the characters.
pub open spec fn spec_encode_field(s: Seq<char>) -> Seq<u8> {
    spec_u64_to_le_bytes(s.len() as u64) + spec_encode_chars(s)
}

/// A whole frame: the version byte, then content, sender and timestamp.
pub open spec fn spec_encode(m: MessageView) -> Seq<u8> {
    seq![WIRE_VERSION] + spec_encode_field(m.content) + spec_encode_field(m.sender)
        + spec_encode_field(m.timestamp)
}

/// Parse `n` characters from the front of `b`; on success return them and
/// the remaining bytes.
pub open spec fn spec_parse_chars(b: Seq<u8>, n: nat) -> Option<(Seq<char>, Seq<u8>)>
    decreases n,
{
    if n == 0 {
        Some((Seq::<char>::empty(), b))
    } else if b.len() < 4 {
        None
    } else {
        let v = spec_u32_from_le_bytes(b.take(4));
        if !is_scalar_value(v) {
            None
        } else {
            match spec_parse_chars(b.skip(4), (n - 1) as nat) {
                Some(p) => Some((seq![v as char] + p.0, p.1)),
                None => None,
            }
        }
    }
}

/// Parse one length-prefixed field from the front of `b`.
pub open spec fn spec_parse_field(b: Seq<u8>) -> Option<(Seq<char>, Seq<u8>)> {
    if b.len() < 8 {
        None
    } else {
        spec_parse_chars(b.skip(8), spec_u64_from_le_bytes(b.take(8)) as nat)
    }
}

/// Decode a whole frame; `None` when the frame is not exactly one
/// well-formed message under `WIRE_VERSION`.
pub open spec fn spec_decode(b: Seq<u8>) -> Option<MessageView> {
    if b.len() < 1 || b[0] != WIRE_VERSION {
        None
    } else {
        match spec_parse_field(b.skip(1)) {
            Some(c) => match spec_parse_field(c.1) {
                Some(s) => match spec_parse_field(s.1) {
                    Some(t) => if t.1.len() == 0 {
                        Some(MessageView { content: c.0, sender: s.0, timestamp: t.0 })
                    } else {
                        None
                    },
                    None => None,
                },
                None => None,
            },
            None => None,
        }
    }
}

/// Appending one character extends the encoding by that character's bytes.
proof fn lemma_encode_chars_push(s: Seq<char>, c: char)
    ensures
        spec_encode_chars(s.push(c)) == spec_encode_chars(s) + spec_u32_to_le_bytes(c as u32),
    decreases s.len(),
{
    if s.len() == 0 {
        let e = s.push(c);
        assert(e.skip(1) =~= Seq::<char>::empty());
        assert(e[0] == c);
        assert(spec_encode_chars(Seq::<char>::empty()) == Seq::<u8>::empty());
        assert(spec_encode_chars(e) == spec_u32_to_le_bytes(c as u32) + spec_encode_chars(
            e.skip(1),
        ));
        assert(spec_encode_chars(s) == Seq::<u8>::empty());
        assert(spec_encode_chars(s.push(c)) =~= spec_encode_chars(s) + spec_u32_to_le_bytes(
            c as u32,
        ));
    } else {
        assert(s.push(c).skip(1) =~= s.skip(1).push(c));
        lemma_encode_chars_push(s.skip(1), c);
        assert(s.push(c)[0] == s[0]);
        assert(spec_encode_chars(s.push(c)) =~= spec_encode_chars(s) + spec_u32_to_le_bytes(
            c as u32,
        ));
    }
}

/// Parsing `n` characters from an encoding of `n` characters followed by
/// anything yields those characters and leaves the rest untouched.
proof fn lemma_parse_encode_chars(s: Seq<char>, rest: Seq<u8>)
    ensures
        spec_parse_chars(spec_encode_chars(s) + rest, s.len()) == Some((s, rest)),
    decreases s.len(),
{
    let b = spec_encode_chars(s) + rest;
    if s.len() == 0 {
        assert(b =~= rest);
        assert(Seq::<char>::empty() =~= s);
    } else {
        lemma_auto_spec_u32_to_from_le_bytes();
        let c = s[0];
        let v = c as u32;
        assert(b.take(4) =~= spec_u32_to_le_bytes(v));
        assert(spec_u32_from_le_bytes(b.take(4)) == v);
        vstd::utf8::char_is_scalar(c);
        assert(is_scalar_value(v));
        vstd::utf8::char_u32_cast(c, v);
        assert((v as char) == c);
        assert(b.skip(4) =~= spec_encode_chars(s.skip(1)) + rest);
        lemma_parse_encode_chars(s.skip(1), rest);
        assert(seq![c] + s.skip(1) =~= s);
    }
}

/// Parsing a field from an encoding of that field followed by anything
/// yields the field's characters and leaves the rest untouched.
proof fn lemma_parse_encode_field(s: Seq<char>, rest: Seq<u8>)
    requires
        s.len() <= u64::MAX,
    ensures
        spec_parse_field(spec_encode_field(s) + rest) == Some((s, rest)),
{
    lemma_auto_spec_u64_to_from_le_bytes();
    let b = spec_encode_field(s) + rest;
    assert(b.take(8) =~= spec_u64_to_le_bytes(s.len() as u64));
    assert(b.skip(8) =~= spec_encode_chars(s) + rest);
    assert(spec_u64_from_le_bytes(b.take(8)) as nat == s.len());
    lemma_parse_encode_chars(s, rest);
}

/// Law: decoding an encoded message yields the original message, equal in
/// all three fields. The length bounds are forced by the 8-byte character
/// counts of the wire format; every field read out of an executable string
/// satisfies them.
pub proof fn lemma_encode_decode_roundtrip(m: MessageView)
    requires
        m.content.len() <= u64::MAX,
        m.sender.len() <= u64::MAX,
        m.timestamp.len() <= u64::MAX,
    ensures
        spec_decode(spec_encode(m)) == Some(m),
{
    let f1 = spec_encode_field(m.content);
    let f2 = spec_encode_field(m.sender);
    let f3 = spec_encode_field(m.timestamp);
    let b = spec_encode(m);
    assert(b[0] == WIRE_VERSION);
    assert(b.skip(1) =~= f1 + (f2 + f3));
    lemma_parse_encode_field(m.content, f2 + f3);
    assert(f2 + f3 =~= spec_encode_field(m.sender) + f3);
    lemma_parse_encode_field(m.sender, f3);
    assert(f3 =~= spec_encode_field(m.timestamp) + Seq::<u8>::empty());
    lemma_parse_encode_field(m.timestamp, Seq::<u8>::empty());
    assert(spec_decode(b) == Some(MessageView { content: m.content, sender: m.sender, timestamp: m.timestamp }));
    assert(MessageView { content: m.content, sender: m.sender, timestamp: m.timestamp } =~= m);
}

/// Append one field's encoding to `out`.
fn encode_field(out: &mut Vec<u8>, s: &str)
    ensures
        final(out)@ == old(out)@ + spec_encode_field(s@),
{
    let n = s.unicode_len();
    let mut len_bytes = u64_to_le_bytes(n as u64);
    out.append(&mut len_bytes);
    proof {
        assert(s@.take(0) =~= Seq::<char>::empty());
        assert(out@ =~= old(out)@ + spec_u64_to_le_bytes(n as u64) + spec_encode_chars(s@.take(0)));
    }
    let mut i: usize = 0;
    while i < n
        invariant
            i <= n,
            n == s@.len(),
            out@ == old(out)@ + spec_u64_to_le_bytes(n as u64) + spec_encode_chars(
                s@.take(i as int),
            ),
        decreases n - i,
    {
        let c = s.get_char(i);
        let mut cb = u32_to_le_bytes(c as u32);
        out.append(&mut cb);
        proof {
            lemma_encode_chars_push(s@.take(i as int), s@[i as int]);
            assert(s@.take(i as int + 1) =~= s@.take(i as int).push(s@[i as int]));
            assert(out@ =~= old(out)@ + spec_u64_to_le_bytes(n as u64) + spec_encode_chars(
                s@.take(i as int + 1),
            ));
        }
        i = i + 1;
    }
    proof {
        assert(s@.take(n as int) =~= s@);
        assert(out@ =~= old(out)@ + spec_encode_field(s@));
    }
}

/// Encode `m` as one wire frame.
pub fn encode_message(m: &P2PMessage) -> (out: Vec<u8>)
    ensures
        out@ == spec_encode(m@),
{
    let mut out: Vec<u8> = Vec::new();
    out.push(WIRE_VERSION);
    proof {
        assert(out@ =~= seq![WIRE_VERSION]);
    }
    encode_field(&mut out, m.content.as_str());
    encode_field(&mut out, m.sender.as_str());
    encode_field(&mut out, m.timestamp.as_str());
    out
}

/// Relies on `char::from_u32` of core: `Some` exactly on Unicode scalar
/// values, returning the character with that code point.
pub assume_specification[ char::from_u32 ](v: u32) -> (r: Option<char>)
    ensures
        r == (if is_scalar_value(v) {
            Some(v as char)
        } else {
            None::<char>
        }),
;

/// Relies on `String::push` of std: appends one character at the end.
pub assume_specification[ String::push ](s: &mut String, c: char)
    ensures
        final(s)@ == old(s)@.push(c),
;

/// Concatenating after a pushed character associates as expected.
proof fn lemma_push_concat(a: Seq<char>, c: char, p: Seq<char>)
    ensures
        a + (seq![c] + p) == a.push(c) + p,
{
    assert(a + (seq![c] + p) =~= a.push(c) + p);
}

/// Parse one field of `b` starting at byte offset `pos`. On success, return
/// the field's text and the offset just past it.
fn parse_field(b: &Vec<u8>, pos: usize) -> (r: Option<(String, usize)>)
    requires
        pos <= b@.len(),
    ensures
        match r {
            Some(p) => pos <= p.1 <= b@.len() && spec_parse_field(b@.skip(pos as int)) == Some(
                (p.0@, b@.skip(p.1 as int)),
            ),
            None => spec_parse_field(b@.skip(pos as int)) is None,
        },
{
    if b.len() - pos < 8 {
        return None;
    }
    let len_slice = vstd::slice::slice_subrange(b.as_slice(), pos, pos + 8);
    let n = u64_from_le_bytes(len_slice);
    let ghost start: int = pos + 8;
    proof {
        assert(b@.skip(pos as int).take(8) =~= b@.subrange(pos as int, pos as int + 8));
        assert(b@.skip(pos as int).skip(8) =~= b@.skip(start));
    }
    let mut acc = String::new();
    let mut cur: usize = pos + 8;
    let mut i: u64 = 0;
    while i < n
        invariant
            pos + 8 <= cur <= b@.len(),
            start == pos + 8,
            i <= n,
            acc@.len() == i,
            spec_parse_field(b@.skip(pos as int)) == spec_parse_chars(b@.skip(start), n as nat),
            match spec_parse_chars(b@.skip(cur as int), (n - i) as nat) {
                Some(p) => spec_parse_chars(b@.skip(start), n as nat) == Some((acc@ + p.0, p.1)),
                None => spec_parse_chars(b@.skip(start), n as nat) is None,
            },
        decreases n - i,
    {
        if b.len() - cur < 4 {
            return None;
        }
        let cs = vstd::slice::slice_subrange(b.as_slice(), cur, cur + 4);
        let v = u32_from_le_bytes(cs);
        proof {
            assert(b@.skip(cur as int).take(4) =~= b@.subrange(cur as int, cur as int + 4));
        }
        let c = match char::from_u32(v) {
            Some(c) => c,
            None => {
                return None;
            },
        };
        let ghost old_acc = acc@;
        acc.push(c);
        proof {
            assert(b@.skip(cur as int).skip(4) =~= b@.skip(cur as int + 4));
            match spec_parse_chars(b@.skip(cur as int + 4), (n - i - 1) as nat) {
                Some(p) => {
                    lemma_push_concat(old_acc, c, p.0);
                },
                None => {},
            }
        }
        cur = cur + 4;
        i = i + 1;
    }
    proof {
        assert(acc@ + Seq::<char>::empty() =~= acc@);
    }
    Some((acc, cur))
}

/// Decode one wire frame into a message. Returns `UnsupportedVersion`
/// exactly when the frame has at least one byte and its version byte is not
/// `WIRE_VERSION`, and `Malformed` for every other rejected frame.
pub fn decode_message(b: &Vec<u8>) -> (r: Result<P2PMessage, DecodeError>)
    ensures
        match r {
            Ok(m) => spec_decode(b@) == Some(m@),
            Err(e) => spec_decode(b@) is None && (e == DecodeError::UnsupportedVersion <==> b@.len()
                >= 1 && b@[0] != WIRE_VERSION),
        },
{
    if b.len() < 1 {
        return Err(DecodeError::Malformed);
    }
    if b[0] != WIRE_VERSION {
        return Err(DecodeError::UnsupportedVersion);
    }
    let (content, after_content) = match parse_field(b, 1) {
        Some(p) => p,
        None => {
            return Err(DecodeError::Malformed);
        },
    };
    let (sender, after_sender) = match parse_field(b, after_content) {
        Some(p) => p,
        None => {
            return Err(DecodeError::Malformed);
        },
    };
    let (timestamp, after_timestamp) = match parse_field(b, after_sender) {
        Some(p) => p,
        None => {
            return Err(DecodeError::Malformed);
        },
    };
    if after_timestamp != b.len() {
        return Err(DecodeError::Malformed);
    }
    let m = P2PMessage { content, sender, timestamp };
    Ok(m)
}

} // verus!
