//! Wire formats: chat frames (a 4-byte big-endian length, then the bytes)
//! and the server's greeting (a 2-byte big-endian length, then the bytes).
use vstd::prelude::*;
use vstd::utf8::{decode_utf8, encode_utf8, encode_utf8_decode_utf8, encode_utf8_valid_utf8, valid_utf8};

verus! {

/// Why a received buffer holds no chat frame.
#[derive(Clone, Copy, Debug, PartialEq, Eq, Structural)]
pub enum FrameError {
    /// Fewer than 4 bytes: no length header.
    MissingHeader,
    /// The header announces more bytes than the buffer holds.
    Truncated,
    /// The announced bytes are not valid UTF-8.
    InvalidUtf8,
}

/// Big-endian bytes of `n`.
pub open spec fn be_u32_bytes(n: u32) -> Seq<u8> {
    seq![(n >> 24u32) as u8, (n >> 16u32) as u8, (n >> 8u32) as u8, n as u8]
}

/// The `u32` whose big-endian bytes are `b0 b1 b2 b3`.
pub open spec fn be_u32_value(b0: u8, b1: u8, b2: u8, b3: u8) -> u32 {
    ((b0 as u32) << 24u32) | ((b1 as u32) << 16u32) | ((b2 as u32) << 8u32) | (b3 as u32)
}

/// Big-endian bytes of `n`.
pub open spec fn be_u16_bytes(n: u16) -> Seq<u8> {
    seq![(n >> 8u16) as u8, n as u8]
}

/// The `u16` whose big-endian bytes are `b0 b1`.
pub open spec fn be_u16_value(b0: u8, b1: u8) -> u16 {
    ((b0 as u16) << 8u16) | (b1 as u16)
}

/// A chat frame: the payload's length (as a `u32`, so taken modulo 2^32)
/// in big-endian order, then the payload.
pub open spec fn frame_bytes(payload: Seq<u8>) -> Seq<u8> {
    be_u32_bytes(payload.len() as u32) + payload
}

/// The payload of the frame at the start of `buf`.
pub open spec fn frame_payload(buf: Seq<u8>) -> Result<Seq<u8>, FrameError> {
    if buf.len() < 4 {
        Err(FrameError::MissingHeader)
    } else {
        let size = be_u32_value(buf[0], buf[1], buf[2], buf[3]);
        if size + 4 > buf.len() {
            Err(FrameError::Truncated)
        } else {
            Ok(buf.subrange(4, 4 + size))
        }
    }
}

/// The text carried by the frame at the start of `buf`.
pub open spec fn frame_text(buf: Seq<u8>) -> Result<Seq<char>, FrameError> {
    match frame_payload(buf) {
        Ok(p) => if valid_utf8(p) {
            Ok(decode_utf8(p))
        } else {
            Err(FrameError::InvalidUtf8)
        },
        Err(e) => Err(e),
    }
}

/// The server's greeting: the body's length (as a `u16`, so taken modulo
/// 2^16) in big-endian order, then the body.
pub open spec fn greeting_bytes(body: Seq<u8>) -> Seq<u8> {
    be_u16_bytes(body.len() as u16) + body
}

proof fn lemma_be_u32_roundtrip(n: u32)
    ensures
        be_u32_value((n >> 24u32) as u8, (n >> 16u32) as u8, (n >> 8u32) as u8, n as u8) == n,
{
    assert(((((n >> 24u32) as u8) as u32) << 24u32) | ((((n >> 16u32) as u8) as u32) << 16u32)
        | ((((n >> 8u32) as u8) as u32) << 8u32) | (((n as u8) as u32)) == n) by (bit_vector);
}

proof fn lemma_be_u16_roundtrip(n: u16)
    ensures
        be_u16_value((n >> 8u16) as u8, n as u8) == n,
{
    assert(((((n >> 8u16) as u8) as u16) << 8u16) | (((n as u8) as u16)) == n) by (bit_vector);
}

/// A frame holding a payload shorter than 2^32 bytes gives that payload back,
/// whatever follows it in the buffer.
pub proof fn lemma_frame_roundtrip(payload: Seq<u8>, rest: Seq<u8>)
    requires
        payload.len() < 0x1_0000_0000,
    ensures
        frame_payload(frame_bytes(payload) + rest) == Ok::<Seq<u8>, FrameError>(payload),
{
    let n = payload.len() as u32;
    lemma_be_u32_roundtrip(n);
    let buf = frame_bytes(payload) + rest;
    assert(buf[0] == (n >> 24u32) as u8);
    assert(buf[1] == (n >> 16u32) as u8);
    assert(buf[2] == (n >> 8u32) as u8);
    assert(buf[3] == n as u8);
    assert(buf.subrange(4, 4 + payload.len() as int) =~= payload);
}

/// A text whose UTF-8 encoding is shorter than 2^32 bytes, sent as a frame,
/// is read back unchanged, whatever follows the frame.
pub proof fn lemma_frame_text_roundtrip(text: Seq<char>, rest: Seq<u8>)
    requires
        encode_utf8(text).len() < 0x1_0000_0000,
    ensures
        frame_text(frame_bytes(encode_utf8(text)) + rest) == Ok::<Seq<char>, FrameError>(text),
{
    lemma_frame_roundtrip(encode_utf8(text), rest);
    encode_utf8_valid_utf8(text);
    encode_utf8_decode_utf8(text);
}

/// The greeting's header gives back the body's length, when it is shorter
/// than 2^16 bytes.
pub proof fn lemma_greeting_roundtrip(body: Seq<u8>)
    requires
        body.len() < 0x1_0000,
    ensures
        greeting_bytes(body).subrange(2, greeting_bytes(body).len() as int) == body,
        be_u16_value(greeting_bytes(body)[0], greeting_bytes(body)[1]) == body.len(),
{
    let n = body.len() as u16;
    lemma_be_u16_roundtrip(n);
    assert(greeting_bytes(body).subrange(2, greeting_bytes(body).len() as int) =~= body);
}

/// `String::from_utf8(bytes).ok()`.
#[verifier::external_body]
fn string_from_utf8(bytes: Vec<u8>) -> (r: Option<String>)
    ensures
        r is Some <==> valid_utf8(bytes@),
        r matches Some(s) ==> s@ == decode_utf8(bytes@),
{
    String::from_utf8(bytes).ok()
}

/// `bytes` with `tail` appended.
fn extend_bytes(bytes: &mut Vec<u8>, tail: &[u8])
    ensures
        final(bytes)@ == old(bytes)@ + tail@,
{
    let mut i: usize = 0;
    let ghost start = bytes@;
    while i < tail.len()
        invariant
            i <= tail.len(),
            bytes@ == start + tail@.take(i as int),
        decreases tail.len() - i,
    {
        bytes.push(tail[i]);
        i = i + 1;
        assert(bytes@ =~= start + tail@.take(i as int));
    }
    assert(tail@.take(tail.len() as int) =~= tail@);
}

/// The frame that carries `payload`.
pub fn frame_message(payload: &[u8]) -> (r: Vec<u8>)
    ensures
        r@ == frame_bytes(payload@),
{
    let n = payload.len() as u32;
    let mut r: Vec<u8> = Vec::new();
    r.push((n >> 24u32) as u8);
    r.push((n >> 16u32) as u8);
    r.push((n >> 8u32) as u8);
    r.push(n as u8);
    extend_bytes(&mut r, payload);
    assert(r@ =~= frame_bytes(payload@));
    r
}

/// The frame that carries `text`, UTF-8 encoded.
pub fn frame_text_message(text: &str) -> (r: Vec<u8>)
    ensures
        r@ == frame_bytes(encode_utf8(text@)),
{
    frame_message(text.as_bytes())
}

/// The payload bytes of the frame at the start of `buf`.
pub fn decode_frame(buf: &[u8]) -> (r: Result<Vec<u8>, FrameError>)
    ensures
        match r {
            Ok(p) => frame_payload(buf@) == Ok::<Seq<u8>, FrameError>(p@),
            Err(e) => frame_payload(buf@) == Err::<Seq<u8>, FrameError>(e),
        },
{
    if buf.len() < 4 {
        return Err(FrameError::MissingHeader);
    }
    let size = ((buf[0] as u32) << 24u32) | ((buf[1] as u32) << 16u32) | ((buf[2] as u32) << 8u32)
        | (buf[3] as u32);
    if size as usize > buf.len() - 4 {
        return Err(FrameError::Truncated);
    }
    let end = 4 + size as usize;
    let mut p: Vec<u8> = Vec::new();
    let mut i: usize = 4;
    while i < end
        invariant
            4 <= i <= end <= buf.len(),
            p@ == buf@.subrange(4, i as int),
        decreases end - i,
    {
        p.push(buf[i]);
        i = i + 1;
        assert(p@ =~= buf@.subrange(4, i as int));
    }
    Ok(p)
}

/// The text carried by the frame at the start of `buf`.
pub fn decode_frame_text(buf: &[u8]) -> (r: Result<String, FrameError>)
    ensures
        match r {
            Ok(s) => frame_text(buf@) == Ok::<Seq<char>, FrameError>(s@),
            Err(e) => frame_text(buf@) == Err::<Seq<char>, FrameError>(e),
        },
{
    match decode_frame(buf) {
        Ok(p) => match string_from_utf8(p) {
            Some(s) => Ok(s),
            None => Err(FrameError::InvalidUtf8),
        },
        Err(e) => Err(e),
    }
}

/// The greeting that carries `body`, UTF-8 encoded.
pub fn greeting(body: &str) -> (r: Vec<u8>)
    ensures
        r@ == greeting_bytes(encode_utf8(body@)),
{
    let bytes = body.as_bytes();
    let n = bytes.len() as u16;
    let mut r: Vec<u8> = Vec::new();
    r.push((n >> 8u16) as u8);
    r.push(n as u8);
    extend_bytes(&mut r, bytes);
    assert(r@ =~= greeting_bytes(encode_utf8(body@)));
    r
}

/// Length of the greeting's body, read from its 2-byte header.
pub fn greeting_body_len(b0: u8, b1: u8) -> (n: usize)
    ensures
        n == be_u16_value(b0, b1),
{
    (((b0 as u16) << 8u16) | (b1 as u16)) as usize
}

} // verus!
