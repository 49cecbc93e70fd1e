//! Length-prefixed framing of control messages.
//!
//! A frame is one tag byte, the payload's length in four bytes (most
//! significant first), and the payload. A frame that has not arrived whole is
//! waited for; one that claims more than the codec's limit is refused at once,
//! so a hostile or corrupt peer cannot make the daemon hold unbounded data.

use crate::buffers::{
    advance, be16, be32, buf_seq, byte_at, bytes_seq, bytes_slice, get_u16, get_u8, put_u16,
    put_u32, put_u8,
};
use crate::message::{redraw_of_code, Message, MessageView, RedrawMethod};
use crate::text::{decimal, push_decimal};
use bytes::BytesMut;
use vstd::prelude::*;
use vstd::string::*;

verus! {

/// The longest payload that a codec accepts unless it is told otherwise.
pub const DEFAULT_MAX_FRAME_LEN: usize = 65536;

/// One tag byte and four length bytes.
pub const HEADER_LEN: usize = 5;

pub const TYPE_PUSH: u8 = 0;

pub const TYPE_ATTACH: u8 = 1;

pub const TYPE_DETACH: u8 = 2;

pub const TYPE_WINCH: u8 = 3;

pub const TYPE_REDRAW: u8 = 4;

pub const TYPE_KILL: u8 = 5;

/// Why bytes were refused as a frame.
#[derive(Debug, Clone, Copy, PartialEq, Eq, Structural)]
pub enum CodecError {
    /// The header claims a payload of `len` bytes, and `max` is the limit.
    FrameTooLong { len: usize, max: usize },
    /// A message of this type has a payload of `expected` bytes, not `got`.
    PayloadLength { expected: usize, got: usize },
    /// No redraw method has this code.
    UnknownRedrawMethod { code: u8 },
    /// No message type has this tag.
    UnknownMessageType { tag: u8 },
}

impl CodecError {
    /// The error in words.
    pub open spec fn text(self) -> Seq<char> {
        match self {
            CodecError::FrameTooLong { len, max } => "frame length "@ + decimal(len as nat)
                + " exceeds max "@ + decimal(max as nat),
            CodecError::PayloadLength { expected, got } => "expected "@ + decimal(expected as nat)
                + "-byte payload, got "@ + decimal(got as nat),
            CodecError::UnknownRedrawMethod { code } => "unknown redraw method "@ + decimal(
                code as nat,
            ),
            CodecError::UnknownMessageType { tag } => "unknown message type "@ + decimal(
                tag as nat,
            ),
        }
    }

    /// The error in words.
    pub fn message(&self) -> (r: String)
        ensures
            r@ == self.text(),
    {
        let mut r = String::new();
        match self {
            CodecError::FrameTooLong { len, max } => {
                r.append("frame length ");
                push_decimal(&mut r, *len as u64);
                r.append(" exceeds max ");
                push_decimal(&mut r, *max as u64);
            },
            CodecError::PayloadLength { expected, got } => {
                r.append("expected ");
                push_decimal(&mut r, *expected as u64);
                r.append("-byte payload, got ");
                push_decimal(&mut r, *got as u64);
            },
            CodecError::UnknownRedrawMethod { code } => {
                r.append("unknown redraw method ");
                push_decimal(&mut r, *code as u64);
            },
            CodecError::UnknownMessageType { tag } => {
                r.append("unknown message type ");
                push_decimal(&mut r, *tag as u64);
            },
        }
        assert(r@ =~= self.text());
        r
    }
}

/// Encodes and decodes frames.
pub struct MessageCodec {
    max_frame_len: usize,
}

/// The tag byte of a message.
pub open spec fn tag(m: MessageView) -> u8 {
    match m {
        MessageView::Push(_) => TYPE_PUSH,
        MessageView::Attach { .. } => TYPE_ATTACH,
        MessageView::Detach => TYPE_DETACH,
        MessageView::Winch { .. } => TYPE_WINCH,
        MessageView::Redraw { .. } => TYPE_REDRAW,
        MessageView::Kill { .. } => TYPE_KILL,
    }
}

/// The payload bytes of a message.
pub open spec fn payload(m: MessageView) -> Seq<u8> {
    match m {
        MessageView::Push(data) => data,
        MessageView::Attach { skip_ring } => seq![if skip_ring { 1u8 } else { 0u8 }],
        MessageView::Detach => Seq::empty(),
        MessageView::Winch { rows, cols } => be16(rows) + be16(cols),
        MessageView::Redraw { method, rows, cols } => seq![method.code()] + be16(rows) + be16(cols),
        MessageView::Kill { signal } => seq![signal],
    }
}

/// The header of a frame: the tag, then the low 32 bits of the payload length.
pub open spec fn header(ty: u8, len: nat) -> Seq<u8> {
    seq![ty] + be32((len % 0x1_0000_0000) as u32)
}

/// The bytes of a message on the wire.
pub open spec fn frame(m: MessageView) -> Seq<u8> {
    header(tag(m), payload(m).len()) + payload(m)
}

/// The payload length that the header at the front of `s` claims.
pub open spec fn claimed_len(s: Seq<u8>) -> nat
    recommends
        s.len() >= HEADER_LEN,
{
    (s[1] * 16777216 + s[2] * 65536 + s[3] * 256 + s[4]) as nat
}

/// The 16-bit number at position `i` of `s`, most significant byte first.
pub open spec fn u16_at(s: Seq<u8>, i: int) -> u16 {
    (s[i] * 256 + s[i + 1]) as u16
}

/// `m` if the payload `p` has the length `expected`, else the error that says so.
pub open spec fn with_len(p: Seq<u8>, expected: usize, m: MessageView) -> Result<
    MessageView,
    CodecError,
> {
    if p.len() == expected {
        Ok(m)
    } else {
        Err(CodecError::PayloadLength { expected, got: p.len() as usize })
    }
}

/// The message with tag `ty` and payload `p`.
pub open spec fn parsed(ty: u8, p: Seq<u8>) -> Result<MessageView, CodecError> {
    if ty == TYPE_PUSH {
        Ok(MessageView::Push(p))
    } else if ty == TYPE_ATTACH {
        with_len(p, 1, MessageView::Attach { skip_ring: p[0] != 0 })
    } else if ty == TYPE_DETACH {
        with_len(p, 0, MessageView::Detach)
    } else if ty == TYPE_WINCH {
        with_len(p, 4, MessageView::Winch { rows: u16_at(p, 0), cols: u16_at(p, 2) })
    } else if ty == TYPE_REDRAW {
        if p.len() == 5 {
            match redraw_of_code(p[0]) {
                Some(method) => Ok(
                    MessageView::Redraw { method, rows: u16_at(p, 1), cols: u16_at(p, 3) },
                ),
                None => Err(CodecError::UnknownRedrawMethod { code: p[0] }),
            }
        } else {
            Err(CodecError::PayloadLength { expected: 5, got: p.len() as usize })
        }
    } else if ty == TYPE_KILL {
        with_len(p, 1, MessageView::Kill { signal: p[0] })
    } else {
        Err(CodecError::UnknownMessageType { tag: ty })
    }
}

/// What decoding makes of the bytes `s` under the limit `max`: the result, and
/// the bytes that stay in the buffer. A complete frame is consumed, whether its
/// payload makes sense or not; nothing is consumed otherwise.
pub open spec fn decoded(s: Seq<u8>, max: usize) -> (
    Result<Option<MessageView>, CodecError>,
    Seq<u8>,
) {
    if s.len() < HEADER_LEN {
        (Ok(None), s)
    } else if claimed_len(s) > max {
        (Err(CodecError::FrameTooLong { len: claimed_len(s) as usize, max }), s)
    } else if s.len() < HEADER_LEN + claimed_len(s) {
        (Ok(None), s)
    } else {
        let end = HEADER_LEN + claimed_len(s);
        let result = match parsed(s[0], s.subrange(HEADER_LEN as int, end)) {
            Ok(m) => Ok(Some(m)),
            Err(e) => Err(e),
        };
        (result, s.skip(end))
    }
}

/// A decoding result with the message replaced by its view.
pub open spec fn result_view(r: Result<Option<Message>, CodecError>) -> Result<
    Option<MessageView>,
    CodecError,
> {
    match r {
        Ok(Some(m)) => Ok(Some(m@)),
        Ok(None) => Ok(None),
        Err(e) => Err(e),
    }
}

impl MessageCodec {
    /// The longest payload that this codec accepts.
    pub closed spec fn limit(&self) -> usize {
        self.max_frame_len
    }

    /// A codec that accepts payloads of up to `max_frame_len` bytes.
    pub fn new(max_frame_len: usize) -> (codec: Self)
        ensures
            codec.limit() == max_frame_len,
    {
        MessageCodec { max_frame_len }
    }

    /// Appends the frame of `msg` to `dst`. Never fails.
    pub fn encode(&mut self, msg: Message, dst: &mut BytesMut) -> (r: Result<(), CodecError>)
        requires
            buf_seq(*old(dst)).len() + frame(msg@).len() <= isize::MAX,
        ensures
            r is Ok,
            *final(self) == *old(self),
            buf_seq(*final(dst)) == buf_seq(*old(dst)) + frame(msg@),
    {
        let ghost before = buf_seq(*dst);
        match &msg {
            Message::Push(data) => {
                let bytes = bytes_slice(data);
                write_header(dst, TYPE_PUSH, bytes.len());
                dst.extend_from_slice(bytes);
            },
            Message::Attach { skip_ring } => {
                write_header(dst, TYPE_ATTACH, 1);
                put_u8(dst, if *skip_ring { 1 } else { 0 });
            },
            Message::Detach => {
                write_header(dst, TYPE_DETACH, 0);
            },
            Message::Winch { rows, cols } => {
                write_header(dst, TYPE_WINCH, 4);
                put_u16(dst, *rows);
                put_u16(dst, *cols);
            },
            Message::Redraw { method, rows, cols } => {
                write_header(dst, TYPE_REDRAW, 5);
                put_u8(dst, method.to_u8());
                put_u16(dst, *rows);
                put_u16(dst, *cols);
            },
            Message::Kill { signal } => {
                write_header(dst, TYPE_KILL, 1);
                put_u8(dst, *signal);
            },
        }
        assert(buf_seq(*dst) =~= before + frame(msg@));
        Ok(())
    }

    /// Takes the next message out of `src`, if a whole frame has arrived.
    pub fn decode(&mut self, src: &mut BytesMut) -> (r: Result<Option<Message>, CodecError>)
        ensures
            *final(self) == *old(self),
            (result_view(r), buf_seq(*final(src))) == decoded(
                buf_seq(*old(src)),
                old(self).limit(),
            ),
    {
        let ghost s = buf_seq(*src);
        if src.len() < HEADER_LEN {
            return Ok(None);
        }
        let ty = byte_at(src, 0);
        let len: usize = length_of(byte_at(src, 1), byte_at(src, 2), byte_at(src, 3), byte_at(src, 4));
        assert(len == claimed_len(s));
        if len > self.max_frame_len {
            return Err(CodecError::FrameTooLong { len, max: self.max_frame_len });
        }
        let arrived: usize = src.len() - HEADER_LEN;
        if arrived < len {
            // The rest has not arrived yet: make room for it.
            if len <= isize::MAX as usize - HEADER_LEN {
                src.reserve(len - arrived);
            }
            return Ok(None);
        }
        let mut frame = src.split_to(HEADER_LEN + len);
        advance(&mut frame, HEADER_LEN);
        assert(buf_seq(frame) =~= s.subrange(HEADER_LEN as int, HEADER_LEN + len));
        match decode_payload(ty, frame) {
            Ok(msg) => Ok(Some(msg)),
            Err(e) => Err(e),
        }
    }
}

impl Default for MessageCodec {
    fn default() -> (codec: Self)
        ensures
            codec.limit() == DEFAULT_MAX_FRAME_LEN,
    {
        MessageCodec { max_frame_len: DEFAULT_MAX_FRAME_LEN }
    }
}

/// The number that four bytes stand for, most significant first.
fn length_of(b0: u8, b1: u8, b2: u8, b3: u8) -> (n: usize)
    ensures
        n == b0 * 16777216 + b1 * 65536 + b2 * 256 + b3,
{
    b0 as usize * 16777216 + b1 as usize * 65536 + b2 as usize * 256 + b3 as usize
}

/// Appends a frame header to `dst`.
fn write_header(dst: &mut BytesMut, ty: u8, len: usize)
    requires
        buf_seq(*old(dst)).len() + HEADER_LEN <= isize::MAX,
    ensures
        buf_seq(*final(dst)) == buf_seq(*old(dst)) + header(ty, len as nat),
{
    let ghost before = buf_seq(*dst);
    put_u8(dst, ty);
    let low: u32 = (len as u64 % 0x1_0000_0000) as u32;
    put_u32(dst, low);
    assert(buf_seq(*dst) =~= before + header(ty, len as nat));
}

/// The message with tag `ty` and the given payload.
fn decode_payload(ty: u8, payload: BytesMut) -> (r: Result<Message, CodecError>)
    ensures
        match r {
            Ok(m) => parsed(ty, buf_seq(payload)) == Ok::<MessageView, CodecError>(m@),
            Err(e) => parsed(ty, buf_seq(payload)) == Err::<MessageView, CodecError>(e),
        },
{
    let mut payload = payload;
    match ty {
        TYPE_PUSH => Ok(Message::Push(payload.freeze())),
        TYPE_ATTACH => {
            require_len(&payload, 1)?;
            Ok(Message::Attach { skip_ring: byte_at(&payload, 0) != 0 })
        },
        TYPE_DETACH => {
            require_len(&payload, 0)?;
            Ok(Message::Detach)
        },
        TYPE_WINCH => {
            require_len(&payload, 4)?;
            let rows = get_u16(&mut payload);
            let cols = get_u16(&mut payload);
            Ok(Message::Winch { rows, cols })
        },
        TYPE_REDRAW => {
            require_len(&payload, 5)?;
            let code = get_u8(&mut payload);
            match RedrawMethod::from_u8(code) {
                Some(method) => {
                    let rows = get_u16(&mut payload);
                    let cols = get_u16(&mut payload);
                    Ok(Message::Redraw { method, rows, cols })
                },
                None => Err(CodecError::UnknownRedrawMethod { code }),
            }
        },
        TYPE_KILL => {
            require_len(&payload, 1)?;
            Ok(Message::Kill { signal: byte_at(&payload, 0) })
        },
        other => Err(CodecError::UnknownMessageType { tag: other }),
    }
}

/// Refuses a payload that is not `expected` bytes long.
fn require_len(payload: &BytesMut, expected: usize) -> (r: Result<(), CodecError>)
    ensures
        r is Ok <==> buf_seq(*payload).len() == expected,
        r matches Err(e) ==> e == (CodecError::PayloadLength {
            expected,
            got: buf_seq(*payload).len() as usize,
        }),
{
    if payload.len() != expected {
        return Err(CodecError::PayloadLength { expected, got: payload.len() });
    }
    Ok(())
}

/// Whether the payload of `m` is within the limit `max`, and its length can be
/// written in a header.
pub open spec fn fits(m: MessageView, max: usize) -> bool {
    payload(m).len() <= max && payload(m).len() <= u32::MAX
}

/// The frames of `ms`, one after the other.
pub open spec fn stream(ms: Seq<MessageView>) -> Seq<u8>
    decreases ms.len(),
{
    if ms.len() == 0 {
        Seq::empty()
    } else {
        frame(ms[0]) + stream(ms.drop_first())
    }
}

/// What repeated decoding takes out of `s`: the messages in order, and the
/// bytes that stay when no whole frame is left or one is refused.
pub open spec fn decoded_all(s: Seq<u8>, max: usize) -> (Seq<MessageView>, Seq<u8>)
    decreases s.len(),
{
    match decoded(s, max) {
        (Ok(Some(m)), rest) => {
            if rest.len() < s.len() {
                let (ms, end) = decoded_all(rest, max);
                (seq![m] + ms, end)
            } else {
                (seq![m], rest)
            }
        },
        (_, rest) => (Seq::empty(), rest),
    }
}

proof fn lemma_header(ty: u8, len: nat, tail: Seq<u8>)
    requires
        len <= u32::MAX,
    ensures
        header(ty, len).len() == HEADER_LEN,
        (header(ty, len) + tail)[0] == ty,
        claimed_len(header(ty, len) + tail) == len,
{
    let n = (len % 0x1_0000_0000) as u32;
    assert(n == len);
    let s = header(ty, len) + tail;
    assert(s[1] == n / 16777216);
    assert(s[2] == n / 65536 % 256);
    assert(s[3] == n / 256 % 256);
    assert(s[4] == n % 256);
}

proof fn lemma_be16(n: u16)
    ensures
        be16(n)[0] * 256 + be16(n)[1] == n,
{
}

proof fn lemma_parsed_payload(m: MessageView)
    ensures
        parsed(tag(m), payload(m)) == Ok::<MessageView, CodecError>(m),
{
    match m {
        MessageView::Winch { rows, cols } => {
            lemma_be16(rows);
            lemma_be16(cols);
        },
        MessageView::Redraw { method, rows, cols } => {
            lemma_be16(rows);
            lemma_be16(cols);
        },
        _ => {},
    }
}

/// What was encoded is decoded: from a buffer that starts with the frame of a
/// message within the limit, decoding takes exactly that message, and leaves
/// exactly what followed it.
pub proof fn law_decode_returns_what_was_encoded(m: MessageView, rest: Seq<u8>, max: usize)
    requires
        fits(m, max),
    ensures
        decoded(frame(m) + rest, max) == (Ok::<Option<MessageView>, CodecError>(Some(m)), rest),
{
    let p = payload(m);
    let s = frame(m) + rest;
    assert(s =~= header(tag(m), p.len()) + (p + rest));
    lemma_header(tag(m), p.len(), p + rest);
    assert(s.subrange(HEADER_LEN as int, HEADER_LEN + p.len()) =~= p);
    assert(s.skip(HEADER_LEN + p.len()) =~= rest);
    lemma_parsed_payload(m);
}

/// A frame that has arrived only in part is neither an error nor a message: the
/// decoder waits, and keeps what it has.
pub proof fn law_partial_frame_waits(m: MessageView, arrived: int, max: usize)
    requires
        fits(m, max),
        0 <= arrived < frame(m).len(),
    ensures
        decoded(frame(m).take(arrived), max) == (
            Ok::<Option<MessageView>, CodecError>(None),
            frame(m).take(arrived),
        ),
{
    let p = payload(m);
    lemma_header(tag(m), p.len(), p);
    let s = frame(m).take(arrived);
    if arrived >= HEADER_LEN {
        assert(claimed_len(s) == claimed_len(frame(m)));
    }
}

/// Frames that arrive together are decoded one by one, in order, and a frame
/// cut short after them stays in the buffer.
pub proof fn law_stream_of_frames(ms: Seq<MessageView>, next: MessageView, arrived: int, max: usize)
    requires
        forall|i: int| 0 <= i < ms.len() ==> fits(#[trigger] ms[i], max),
        fits(next, max),
        0 <= arrived < frame(next).len(),
    ensures
        decoded_all(stream(ms) + frame(next).take(arrived), max) == (
            ms,
            frame(next).take(arrived),
        ),
    decreases ms.len(),
{
    let tail = frame(next).take(arrived);
    if ms.len() == 0 {
        law_partial_frame_waits(next, arrived, max);
        assert(stream(ms) + tail =~= tail);
        assert(ms =~= Seq::<MessageView>::empty());
    } else {
        let rest = stream(ms.drop_first()) + tail;
        assert(stream(ms) + tail =~= frame(ms[0]) + rest);
        law_decode_returns_what_was_encoded(ms[0], rest, max);
        law_stream_of_frames(ms.drop_first(), next, arrived, max);
        assert(seq![ms[0]] + ms.drop_first() =~= ms);
    }
}

/// Two messages with different contents have different frames, and no frame is
/// the beginning of another: the bytes determine the message and where it ends.
pub proof fn law_frames_are_unambiguous(
    a: MessageView,
    rest_a: Seq<u8>,
    b: MessageView,
    rest_b: Seq<u8>,
)
    requires
        payload(a).len() <= u32::MAX,
        payload(b).len() <= u32::MAX,
        frame(a) + rest_a == frame(b) + rest_b,
    ensures
        a == b,
        rest_a == rest_b,
{
    let (pa, pb) = (payload(a), payload(b));
    let s = frame(a) + rest_a;
    assert(s =~= header(tag(a), pa.len()) + (pa + rest_a));
    assert(s =~= header(tag(b), pb.len()) + (pb + rest_b));
    lemma_header(tag(a), pa.len(), pa + rest_a);
    lemma_header(tag(b), pb.len(), pb + rest_b);
    assert(pa =~= s.subrange(HEADER_LEN as int, HEADER_LEN + pa.len()));
    assert(pb =~= s.subrange(HEADER_LEN as int, HEADER_LEN + pb.len()));
    assert(rest_a =~= s.skip(HEADER_LEN + pa.len()));
    assert(rest_b =~= s.skip(HEADER_LEN + pb.len()));
    lemma_parsed_payload(a);
    lemma_parsed_payload(b);
}

/// The decoder holds less than a header and a largest payload while it waits:
/// bytes that claim more are an error as soon as the header is there, and stay
/// where they are.
pub proof fn law_waiting_is_bounded(s: Seq<u8>, max: usize)
    ensures
        decoded(s, max).0 == Ok::<Option<MessageView>, CodecError>(None) ==> s.len() < HEADER_LEN
            + max,
        s.len() >= HEADER_LEN && claimed_len(s) > max ==> decoded(s, max) == (
            Err::<Option<MessageView>, CodecError>(
                CodecError::FrameTooLong { len: claimed_len(s) as usize, max },
            ),
            s,
        ),
{
}

/// More bytes behind a buffer never change what is decoded from its front.
pub proof fn law_later_bytes_do_not_matter(s: Seq<u8>, more: Seq<u8>, max: usize)
    requires
        decoded(s, max).0 != Ok::<Option<MessageView>, CodecError>(None),
    ensures
        decoded(s + more, max) == (decoded(s, max).0, decoded(s, max).1 + more),
{
    let t = s + more;
    assert(claimed_len(t) == claimed_len(s));
    if claimed_len(s) <= max {
        let end = HEADER_LEN + claimed_len(s);
        assert(t.subrange(HEADER_LEN as int, end) =~= s.subrange(HEADER_LEN as int, end));
        assert(t.skip(end) =~= s.skip(end) + more);
    }
}

/// The bytes on the wire, field by field: the tag, the length of the payload in
/// four bytes, most significant first, and the payload, in which numbers have
/// two bytes, most significant first. They are appended, and encoding never
/// fails.
pub proof fn law_frames_on_the_wire(
    codec: &mut MessageCodec,
    msg: Message,
    dst: &mut BytesMut,
    r: Result<(), CodecError>,
)
    requires
        call_ensures(MessageCodec::encode, (codec, msg, dst), r),
        msg matches Message::Push(data) ==> bytes_seq(data).len() <= u32::MAX,
    ensures
        r is Ok,
        final(codec).limit() == old(codec).limit(),
        buf_seq(*old(dst)).is_prefix_of(buf_seq(*final(dst))),
        ({
            let s = buf_seq(*final(dst)).skip(buf_seq(*old(dst)).len() as int);
            &&& s.len() >= 5
            &&& s[1] * 16777216 + s[2] * 65536 + s[3] * 256 + s[4] == s.len() - 5
            &&& match msg {
                Message::Push(data) => s[0] == 0 && s.skip(5) == bytes_seq(data),
                Message::Attach { skip_ring } => s[0] == 1 && s.len() == 6 && s[5] == if skip_ring {
                    1u8
                } else {
                    0u8
                },
                Message::Detach => s[0] == 2 && s.len() == 5,
                Message::Winch { rows, cols } => s[0] == 3 && s.len() == 9 && s[5] * 256 + s[6]
                    == rows && s[7] * 256 + s[8] == cols,
                Message::Redraw { method, rows, cols } => s[0] == 4 && s.len() == 10 && s[5] == (
                match method {
                    RedrawMethod::Unspecified => 0u8,
                    RedrawMethod::NoRedraw => 1u8,
                    RedrawMethod::CtrlL => 2u8,
                    RedrawMethod::Winch => 3u8,
                }) && s[6] * 256 + s[7] == rows && s[8] * 256 + s[9] == cols,
                Message::Kill { signal } => s[0] == 5 && s.len() == 6 && s[5] == signal,
            }
        }),
{
    let before = buf_seq(*old(dst));
    let after = buf_seq(*final(dst));
    let m = msg@;
    let p = payload(m);
    let s = after.skip(before.len() as int);
    assert(s =~= frame(m));
    assert(before =~= after.subrange(0, before.len() as int));
    lemma_header(tag(m), p.len(), p);
    assert(s.skip(5) =~= p);
    assert forall|i: int| 0 <= i < p.len() implies s[5 + i] == #[trigger] p[i] by {}
    match msg {
        Message::Winch { rows, cols } => {
            lemma_be16(rows);
            lemma_be16(cols);
            assert(p[0] == be16(rows)[0] && p[1] == be16(rows)[1]);
            assert(p[2] == be16(cols)[0] && p[3] == be16(cols)[1]);
        },
        Message::Redraw { method, rows, cols } => {
            lemma_be16(rows);
            lemma_be16(cols);
            assert(p[0] == method.code());
            assert(p[1] == be16(rows)[0] && p[2] == be16(rows)[1]);
            assert(p[3] == be16(cols)[0] && p[4] == be16(cols)[1]);
        },
        Message::Attach { .. } => {
            assert(s[5] == p[0]);
        },
        Message::Kill { .. } => {
            assert(s[5] == p[0]);
        },
        _ => {},
    }
}

/// What a codec makes of any bytes, field by field. It waits for a whole frame
/// and keeps what it has; it refuses a length beyond its limit at once and
/// keeps that too; a whole frame is taken out, and is its message or the error
/// that says what is wrong with it.
pub proof fn law_bytes_are_decoded_field_by_field(
    max: usize,
    codec: &mut MessageCodec,
    src: &mut BytesMut,
    r: Result<Option<Message>, CodecError>,
)
    requires
        call_ensures(MessageCodec::new, (max,), *old(codec)),
        call_ensures(MessageCodec::decode, (codec, src), r),
    ensures
        ({
            let s = buf_seq(*old(src));
            let left = buf_seq(*final(src));
            let n = s[1] * 16777216 + s[2] * 65536 + s[3] * 256 + s[4];
            let wrong_length = |expected: usize|
                r == Err::<Option<Message>, CodecError>(
                    CodecError::PayloadLength { expected, got: n as usize },
                );
            if s.len() < 5 {
                left == s && r == Ok::<Option<Message>, CodecError>(None)
            } else if n > max {
                left == s && r == Err::<Option<Message>, CodecError>(
                    CodecError::FrameTooLong { len: n as usize, max },
                )
            } else if s.len() < 5 + n {
                left == s && r == Ok::<Option<Message>, CodecError>(None)
            } else {
                &&& left == s.skip(5 + n)
                &&& s[0] == 0 ==> (r matches Ok(Some(Message::Push(data))) && bytes_seq(data)
                    == s.subrange(5, 5 + n))
                &&& s[0] == 1 ==> if n == 1 {
                    r == Ok::<Option<Message>, CodecError>(
                        Some(Message::Attach { skip_ring: s[5] != 0 }),
                    )
                } else {
                    wrong_length(1)
                }
                &&& s[0] == 2 ==> if n == 0 {
                    r == Ok::<Option<Message>, CodecError>(Some(Message::Detach))
                } else {
                    wrong_length(0)
                }
                &&& s[0] == 3 ==> if n == 4 {
                    r matches Ok(Some(Message::Winch { rows, cols })) && rows == s[5] * 256 + s[6]
                        && cols == s[7] * 256 + s[8]
                } else {
                    wrong_length(4)
                }
                &&& s[0] == 4 ==> if n != 5 {
                    wrong_length(5)
                } else if s[5] > 3 {
                    r == Err::<Option<Message>, CodecError>(
                        CodecError::UnknownRedrawMethod { code: s[5] },
                    )
                } else {
                    r matches Ok(Some(Message::Redraw { method, rows, cols })) && method.code()
                        == s[5] && rows == s[6] * 256 + s[7] && cols == s[8] * 256 + s[9]
                }
                &&& s[0] == 5 ==> if n == 1 {
                    r == Ok::<Option<Message>, CodecError>(Some(Message::Kill { signal: s[5] }))
                } else {
                    wrong_length(1)
                }
                &&& s[0] > 5 ==> r == Err::<Option<Message>, CodecError>(
                    CodecError::UnknownMessageType { tag: s[0] },
                )
            }
        }),
        final(codec).limit() == max,
{
    let s = buf_seq(*old(src));
    if s.len() >= 5 && claimed_len(s) <= max && s.len() >= 5 + claimed_len(s) {
        let n = claimed_len(s) as int;
        let p = s.subrange(5, 5 + n);
        assert forall|i: int| 0 <= i < n implies p[i] == #[trigger] s[5 + i] by {}
        assert(n >= 1 ==> p[0] == s[5]);
        assert(n >= 4 ==> p[1] == s[6] && p[2] == s[7] && p[3] == s[8]);
        assert(n >= 5 ==> p[4] == s[9]);
    }
}

/// Each error says what is wrong, with its numbers.
pub proof fn law_codec_errors_in_words(e: &CodecError, text: String)
    requires
        call_ensures(CodecError::message, (e,), text),
    ensures
        match *e {
            CodecError::FrameTooLong { len, max } => text@ == "frame length "@ + decimal(len as nat)
                + " exceeds max "@ + decimal(max as nat),
            CodecError::PayloadLength { expected, got } => text@ == "expected "@ + decimal(
                expected as nat,
            ) + "-byte payload, got "@ + decimal(got as nat),
            CodecError::UnknownRedrawMethod { code } => text@ == "unknown redraw method "@
                + decimal(code as nat),
            CodecError::UnknownMessageType { tag } => text@ == "unknown message type "@ + decimal(
                tag as nat,
            ),
        },
{
}

/// A codec that is not told otherwise accepts payloads of up to 64 KiB.
pub proof fn law_default_limit(codec: MessageCodec)
    requires
        call_ensures(MessageCodec::default, (), codec),
    ensures
        codec.limit() == 65536,
{
}

} // verus!
