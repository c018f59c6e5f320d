//! Length-prefixed framing: `[u32 big-endian length][u8 kind][payload]`.
//!
//! [`FrameCodec`] turns a byte stream held in a `bytes::BytesMut` into raw
//! frames and back.  The payload encoding (MessagePack or JSON) is chosen once
//! per connection and must match the supervisor's; turning payload bytes into
//! typed messages is left to the transport layer.
//!
//! Frame kinds:
//! - `KIND_REQUEST  = 1` — supervisor → worker
//! - `KIND_RESPONSE = 2` — worker → supervisor
//! - `KIND_EVENT    = 3` — worker → supervisor (unsolicited)
use vstd::prelude::*;

use bytes::BytesMut;
#[allow(unused_imports)]
use bytes::{Buf, BufMut};

use crate::protocol::{WireEvent, WireRequest, WireResponse};
use crate::text::{decimal, decimal_string};

verus! {

pub const KIND_REQUEST: u8 = 1;

pub const KIND_RESPONSE: u8 = 2;

pub const KIND_EVENT: u8 = 3;

/// Hard cap on a frame's declared payload length (64 MiB).
pub const MAX_FRAME_PAYLOAD: usize = 64 * 1024 * 1024;

/// Length of the frame header: four length bytes and one kind byte.
pub const HEADER_LEN: usize = 5;

// ─── ENCODING ────────────────────────────────────────────────────────────────

/// Payload encoding of a connection.
#[derive(Debug, Clone, Copy, PartialEq, Eq, Structural)]
pub enum Encoding {
    Msgpack,
    Json,
}

/// The wire name of an encoding, as reported in `capabilities`.
pub open spec fn encoding_name(e: Encoding) -> Seq<char> {
    match e {
        Encoding::Msgpack => seq!['m', 's', 'g', 'p', 'a', 'c', 'k'],
        Encoding::Json => seq!['j', 's', 'o', 'n'],
    }
}

/// ASCII lower-casing of one character.
pub open spec fn ascii_lower(c: char) -> char {
    if 'A' <= c && c <= 'Z' {
        (((c as u32) + 32) as u8) as char
    } else {
        c
    }
}

/// Whether `s` equals `"json"` when ASCII case is ignored.
pub open spec fn is_json_name(s: Seq<char>) -> bool {
    &&& s.len() == 4
    &&& ascii_lower(s[0]) == 'j'
    &&& ascii_lower(s[1]) == 's'
    &&& ascii_lower(s[2]) == 'o'
    &&& ascii_lower(s[3]) == 'n'
}

/// The encoding that a command-line or configuration string selects: JSON
/// for any ASCII-case variant of `"json"`, MessagePack for anything else.
pub open spec fn encoding_from_name(s: Seq<char>) -> Encoding {
    if is_json_name(s) {
        Encoding::Json
    } else {
        Encoding::Msgpack
    }
}

fn lower_char(c: char) -> (r: char)
    ensures
        r == ascii_lower(c),
{
    if 'A' <= c && c <= 'Z' {
        let u: u32 = (c as u32) + 32;
        proof {
            assert('a' as u32 <= u <= 'z' as u32);
        }
        (u as u8) as char
    } else {
        c
    }
}

impl Encoding {
    /// Wire string reported in `capabilities`; matches the supervisor's
    /// `--encoding` flag.
    pub fn wire_name(self) -> (s: &'static str)
        ensures
            s@ == encoding_name(self),
    {
        match self {
            Encoding::Msgpack => {
                proof {
                    reveal_strlit("msgpack");
                }
                "msgpack"
            },
            Encoding::Json => {
                proof {
                    reveal_strlit("json");
                }
                "json"
            },
        }
    }

    /// Parses an encoding name: `"json"` in any ASCII case selects JSON,
    /// everything else selects MessagePack.  Parsing never fails.
    pub fn parse(s: &str) -> (e: Encoding)
        ensures
            e == encoding_from_name(s@),
    {
        let n = s.unicode_len();
        if n != 4 {
            return Encoding::Msgpack;
        }
        let c0 = lower_char(s.get_char(0));
        let c1 = lower_char(s.get_char(1));
        let c2 = lower_char(s.get_char(2));
        let c3 = lower_char(s.get_char(3));
        if c0 == 'j' && c1 == 's' && c2 == 'o' && c3 == 'n' {
            Encoding::Json
        } else {
            Encoding::Msgpack
        }
    }
}

impl core::str::FromStr for Encoding {
    type Err = core::convert::Infallible;

    /// Never fails: JSON for any ASCII-case variant of `"json"`,
    /// MessagePack for anything else.
    fn from_str(s: &str) -> (r: Result<Self, Self::Err>)
        ensures
            r matches Ok(e) && e == encoding_from_name(s@),
    {
        Ok(Encoding::parse(s))
    }
}

/// Parsing the wire name of an encoding gives that encoding back.
pub proof fn lemma_wire_name_parses_back(e: Encoding)
    ensures
        encoding_from_name(encoding_name(e)) == e,
{
    let s = encoding_name(e);
    match e {
        Encoding::Msgpack => {
            assert(s[0] == 'm');
            assert(ascii_lower(s[0]) == 'm');
        },
        Encoding::Json => {
            assert(s =~= seq!['j', 's', 'o', 'n']);
        },
    }
}

// ─── BYTE BUFFER ─────────────────────────────────────────────────────────────

/// Declares `bytes::BytesMut` to Verus as an opaque type; its contents are
/// known only through [`buffer_bytes`].
#[verifier::external_type_specification]
#[verifier::external_body]
pub struct ExBytesMut(bytes::BytesMut);

/// The bytes held by a `BytesMut`, front to back.
pub uninterp spec fn buffer_bytes(buf: BytesMut) -> Seq<u8>;

/// `BytesMut::len`: the number of bytes held.
#[verifier::external_body]
fn buf_len(buf: &BytesMut) -> (n: usize)
    ensures
        n == buffer_bytes(*buf).len(),
{
    buf.len()
}

/// The number of bytes a buffer holds; with it a caller can check the room
/// that [`FrameCodec::encode`] asks for before calling it.
pub fn buffer_len(buf: &BytesMut) -> (n: usize)
    ensures
        n == buffer_bytes(*buf).len(),
{
    buf_len(buf)
}

/// Appends `bytes` to a buffer when the result stays within `isize::MAX`
/// bytes, and answers whether it did; otherwise the buffer is left alone.
pub fn append_bytes(buf: &mut BytesMut, bytes: &[u8]) -> (ok: bool)
    ensures
        ok == (buffer_bytes(*old(buf)).len() + bytes@.len() <= isize::MAX),
        buffer_bytes(*final(buf)) == if ok {
            buffer_bytes(*old(buf)) + bytes@
        } else {
            buffer_bytes(*old(buf))
        },
{
    let n = buf_len(buf);
    let limit = isize::MAX as usize;
    if bytes.len() <= limit && n <= limit - bytes.len() {
        buf_put_slice(buf, bytes);
        true
    } else {
        false
    }
}

/// Indexing a `BytesMut` (through its `Deref` to `[u8]`): the byte at `i`.
#[verifier::external_body]
fn buf_byte(buf: &BytesMut, i: usize) -> (b: u8)
    requires
        i < buffer_bytes(*buf).len(),
    ensures
        b == buffer_bytes(*buf)[i as int],
{
    buf[i]
}

/// `Buf::advance` on a `BytesMut`: drops the first `n` bytes (panics past the
/// end, hence the precondition).
#[verifier::external_body]
fn buf_advance(buf: &mut BytesMut, n: usize)
    requires
        n <= buffer_bytes(*old(buf)).len(),
    ensures
        buffer_bytes(*final(buf)) == buffer_bytes(*old(buf)).skip(n as int),
{
    buf.advance(n)
}

/// `BytesMut::split_to`: hands out the first `n` bytes and keeps the rest
/// (panics past the end, hence the precondition).
#[verifier::external_body]
fn buf_split_to(buf: &mut BytesMut, n: usize) -> (head: BytesMut)
    requires
        n <= buffer_bytes(*old(buf)).len(),
    ensures
        buffer_bytes(head) == buffer_bytes(*old(buf)).take(n as int),
        buffer_bytes(*final(buf)) == buffer_bytes(*old(buf)).skip(n as int),
{
    buf.split_to(n)
}

/// `BytesMut::reserve`: grows capacity only; the bytes held stay as they
/// are.  It panics when the new capacity would pass `isize::MAX`, hence the
/// precondition.  The allocation may also count bytes already consumed from
/// the front of the buffer; that part of the limit is not modelled.
#[verifier::external_body]
fn buf_reserve(buf: &mut BytesMut, additional: usize)
    requires
        buffer_bytes(*old(buf)).len() + additional <= isize::MAX,
    ensures
        buffer_bytes(*final(buf)) == buffer_bytes(*old(buf)),
{
    buf.reserve(additional)
}

/// `BufMut::put_u32` on a `BytesMut`: appends `n` in big-endian byte order.
#[verifier::external_body]
fn buf_put_u32(buf: &mut BytesMut, n: u32)
    requires
        buffer_bytes(*old(buf)).len() + 4 <= isize::MAX,
    ensures
        buffer_bytes(*final(buf)) == buffer_bytes(*old(buf)) + u32_be_bytes(n),
{
    buf.put_u32(n)
}

/// `BufMut::put_u8` on a `BytesMut`: appends one byte.
#[verifier::external_body]
fn buf_put_u8(buf: &mut BytesMut, n: u8)
    requires
        buffer_bytes(*old(buf)).len() + 1 <= isize::MAX,
    ensures
        buffer_bytes(*final(buf)) == buffer_bytes(*old(buf)).push(n),
{
    buf.put_u8(n)
}

/// `BufMut::put_slice` on a `BytesMut`: appends the bytes of `src`.
#[verifier::external_body]
fn buf_put_slice(buf: &mut BytesMut, src: &[u8])
    requires
        buffer_bytes(*old(buf)).len() + src@.len() <= isize::MAX,
    ensures
        buffer_bytes(*final(buf)) == buffer_bytes(*old(buf)) + src@,
{
    buf.put_slice(src)
}

// ─── HEADER ARITHMETIC ───────────────────────────────────────────────────────

/// The four big-endian bytes of `n`.
pub open spec fn u32_be_bytes(n: u32) -> Seq<u8> {
    seq![
        (n / 0x100_0000) as u8,
        ((n / 0x1_0000) % 0x100) as u8,
        ((n / 0x100) % 0x100) as u8,
        (n % 0x100) as u8,
    ]
}

/// The number that four bytes denote in big-endian order.
pub open spec fn be_value(b: Seq<u8>) -> nat
    recommends
        b.len() >= 4,
{
    (b[0] as nat) * 0x100_0000 + (b[1] as nat) * 0x1_0000 + (b[2] as nat) * 0x100 + (b[3] as nat)
}

/// Reading back the big-endian bytes of `n` gives `n`.
pub proof fn lemma_be_roundtrip(n: u32)
    ensures
        be_value(u32_be_bytes(n)) == n,
{
    let b = u32_be_bytes(n);
    let x = n as int;
    let q0 = x / 0x100_0000;
    let q1 = x / 0x1_0000;
    let q2 = x / 0x100;
    assert(0 <= q0 < 0x100);
    assert(b[0] as int == q0);
    assert(b[1] as int == q1 % 0x100);
    assert(b[2] as int == q2 % 0x100);
    assert(b[3] as int == x % 0x100);
    assert(q1 == q0 * 0x100 + q1 % 0x100);
    assert(q2 == q1 * 0x100 + q2 % 0x100);
    assert(x == q2 * 0x100 + x % 0x100);
}

// ─── FRAME KINDS AND FRAMES ──────────────────────────────────────────────────

/// The kind of a frame, carried in its fifth byte.
#[derive(Debug, Clone, Copy, PartialEq, Eq, Structural)]
pub enum FrameKind {
    Request,
    Response,
    Event,
}

/// The byte that encodes a frame kind.
pub open spec fn kind_byte(k: FrameKind) -> u8 {
    match k {
        FrameKind::Request => KIND_REQUEST,
        FrameKind::Response => KIND_RESPONSE,
        FrameKind::Event => KIND_EVENT,
    }
}

/// The frame kind that a byte encodes, if any.
pub open spec fn kind_of_byte(b: u8) -> Option<FrameKind> {
    if b == KIND_REQUEST {
        Some(FrameKind::Request)
    } else if b == KIND_RESPONSE {
        Some(FrameKind::Response)
    } else if b == KIND_EVENT {
        Some(FrameKind::Event)
    } else {
        None
    }
}

impl FrameKind {
    /// The kind byte of this frame kind.
    pub fn to_byte(self) -> (b: u8)
        ensures
            b == kind_byte(self),
    {
        match self {
            FrameKind::Request => KIND_REQUEST,
            FrameKind::Response => KIND_RESPONSE,
            FrameKind::Event => KIND_EVENT,
        }
    }

    /// The frame kind a byte encodes, or `None` for an unknown kind.
    pub fn from_byte(b: u8) -> (k: Option<FrameKind>)
        ensures
            k == kind_of_byte(b),
    {
        if b == KIND_REQUEST {
            Some(FrameKind::Request)
        } else if b == KIND_RESPONSE {
            Some(FrameKind::Response)
        } else if b == KIND_EVENT {
            Some(FrameKind::Event)
        } else {
            None
        }
    }
}

/// A decoded wire frame.
#[derive(Debug)]
pub enum Frame {
    Request(WireRequest),
    Response(WireResponse),
    Event(WireEvent),
}

impl Frame {
    /// The kind byte under which this frame travels.
    pub fn kind(&self) -> (k: FrameKind)
        ensures
            k == (match self {
                Frame::Request(_) => FrameKind::Request,
                Frame::Response(_) => FrameKind::Response,
                Frame::Event(_) => FrameKind::Event,
            }),
    {
        match self {
            Frame::Request(_) => FrameKind::Request,
            Frame::Response(_) => FrameKind::Response,
            Frame::Event(_) => FrameKind::Event,
        }
    }
}

/// A frame cut out of the byte stream, its payload still encoded.
#[derive(Debug)]
pub struct RawFrame {
    pub kind: FrameKind,
    pub payload: BytesMut,
}

/// Why a byte stream cannot be decoded.
#[derive(Debug, Clone, Copy, PartialEq, Eq, Structural)]
pub enum FrameError {
    /// The header declares a payload longer than [`MAX_FRAME_PAYLOAD`].
    TooLarge { len: usize },
    /// The kind byte names no known frame kind.
    UnknownKind { kind: u8 },
}

impl FrameError {
    /// The error's human-readable description.
    pub fn message(&self) -> (s: String)
        ensures
            s@ == (match *self {
                FrameError::TooLarge { len } => "frame payload too large: "@ + decimal(len as nat)
                    + " bytes (max "@ + decimal(MAX_FRAME_PAYLOAD as nat) + ")"@,
                FrameError::UnknownKind { kind } => "unknown frame kind: "@ + decimal(kind as nat),
            }),
    {
        match *self {
            FrameError::TooLarge { len } => {
                let mut s = "frame payload too large: ".to_owned();
                let n = decimal_string(len as u64);
                s.append(n.as_str());
                s.append(" bytes (max ");
                let m = decimal_string(MAX_FRAME_PAYLOAD as u64);
                s.append(m.as_str());
                s.append(")");
                s
            },
            FrameError::UnknownKind { kind } => {
                let mut s = "unknown frame kind: ".to_owned();
                let n = decimal_string(kind as u64);
                s.append(n.as_str());
                s
            },
        }
    }
}

// ─── SPECIFICATION OF DECODING ───────────────────────────────────────────────

/// What the front of a byte stream holds.
pub enum DecodeStep {
    /// Not enough bytes yet for a whole frame (or even its header).
    Incomplete,
    /// The header declares a payload longer than the cap.
    TooLarge { declared: nat },
    /// A whole frame of `consumed` bytes whose kind byte is unknown.
    UnknownKind { byte: u8, consumed: nat },
    /// A whole frame of `consumed` bytes.
    Complete { kind: FrameKind, payload: Seq<u8>, consumed: nat },
}

/// Decoding of the front of `buf` as the wire format defines it.
pub open spec fn spec_decode(buf: Seq<u8>) -> DecodeStep {
    if buf.len() < HEADER_LEN {
        DecodeStep::Incomplete
    } else {
        let len = be_value(buf);
        if len > MAX_FRAME_PAYLOAD {
            DecodeStep::TooLarge { declared: len }
        } else if buf.len() < HEADER_LEN + len {
            DecodeStep::Incomplete
        } else {
            match kind_of_byte(buf[4]) {
                Some(kind) => DecodeStep::Complete {
                    kind,
                    payload: buf.subrange(HEADER_LEN as int, HEADER_LEN + len),
                    consumed: (HEADER_LEN + len) as nat,
                },
                None => DecodeStep::UnknownKind { byte: buf[4], consumed: (HEADER_LEN + len) as nat },
            }
        }
    }
}

/// The bytes of one frame: the payload length (taken modulo 2^32, as the
/// header field is 32 bits wide), the kind byte, the payload.
pub open spec fn frame_bytes(kind: FrameKind, payload: Seq<u8>) -> Seq<u8> {
    u32_be_bytes((payload.len() % 0x1_0000_0000) as u32) + seq![kind_byte(kind)] + payload
}

/// `r` is what decoding `before` gives, and `after` is what is left of it.
pub open spec fn decode_outcome(
    before: Seq<u8>,
    r: Result<Option<RawFrame>, FrameError>,
    after: Seq<u8>,
) -> bool {
    match spec_decode(before) {
        DecodeStep::Incomplete => r matches Ok(None) && after == before,
        DecodeStep::TooLarge { declared } => r == Err::<Option<RawFrame>, FrameError>(
            FrameError::TooLarge { len: declared as usize },
        ) && after == before,
        DecodeStep::UnknownKind { byte, consumed } => r == Err::<Option<RawFrame>, FrameError>(
            FrameError::UnknownKind { kind: byte },
        ) && after == before.skip(consumed as int),
        DecodeStep::Complete { kind, payload, consumed } => {
            &&& r matches Ok(Some(f))
            &&& f.kind == kind
            &&& buffer_bytes(f.payload) == payload
            &&& after == before.skip(consumed as int)
        },
    }
}

// ─── CODEC ───────────────────────────────────────────────────────────────────

/// Stateless frame codec; the payload encoding is fixed at construction.
pub struct FrameCodec {
    encoding: Encoding,
}

impl FrameCodec {
    pub fn new(encoding: Encoding) -> (c: Self)
        ensures
            c.spec_encoding() == encoding,
    {
        FrameCodec { encoding }
    }

    pub fn msgpack() -> (c: Self)
        ensures
            c.spec_encoding() == Encoding::Msgpack,
    {
        Self::new(Encoding::Msgpack)
    }

    pub fn json() -> (c: Self)
        ensures
            c.spec_encoding() == Encoding::Json,
    {
        Self::new(Encoding::Json)
    }

    pub closed spec fn spec_encoding(&self) -> Encoding {
        self.encoding
    }

    /// The payload encoding this codec was built with.
    pub fn encoding(&self) -> (e: Encoding)
        ensures
            e == self.spec_encoding(),
    {
        self.encoding
    }

    /// Cuts the next frame off the front of `src`.
    ///
    /// - Fewer bytes than a whole frame: `Ok(None)`, nothing consumed (room
    ///   for the rest of the frame is reserved once the header is known).
    /// - A declared length above [`MAX_FRAME_PAYLOAD`]: an error, nothing
    ///   consumed.
    /// - A whole frame: it is consumed; its payload comes back, or an error if
    ///   its kind byte is unknown.
    pub fn decode(&mut self, src: &mut BytesMut) -> (r: Result<Option<RawFrame>, FrameError>)
        ensures
            *final(self) == *old(self),
            decode_outcome(buffer_bytes(*old(src)), r, buffer_bytes(*final(src))),
    {
        let ghost before = buffer_bytes(*src);
        let have = buf_len(src);
        if have < HEADER_LEN {
            return Ok(None);
        }
        let b0 = buf_byte(src, 0);
        let b1 = buf_byte(src, 1);
        let b2 = buf_byte(src, 2);
        let b3 = buf_byte(src, 3);
        let kind = buf_byte(src, 4);
        let length: u32 = (b0 as u32) * 0x100_0000 + (b1 as u32) * 0x1_0000 + (b2 as u32) * 0x100
            + (b3 as u32);
        assert(length == be_value(before));
        if length as u64 > MAX_FRAME_PAYLOAD as u64 {
            return Err(FrameError::TooLarge { len: length as usize });
        }
        let length = length as usize;
        if have < HEADER_LEN + length {
            buf_reserve(src, HEADER_LEN + length - have);
            return Ok(None);
        }
        buf_advance(src, HEADER_LEN);
        let payload = buf_split_to(src, length);
        proof {
            assert(buffer_bytes(payload) =~= before.subrange(HEADER_LEN as int, HEADER_LEN + length));
            assert(buffer_bytes(*src) =~= before.skip(HEADER_LEN + length));
        }
        match FrameKind::from_byte(kind) {
            Some(k) => Ok(Some(RawFrame { kind: k, payload })),
            None => Err(FrameError::UnknownKind { kind }),
        }
    }

    /// Appends one frame — header, then `payload` — to `dst`.
    ///
    /// The length field holds `payload.len()` truncated to 32 bits; payloads
    /// above [`MAX_FRAME_PAYLOAD`] are written as given and are refused by the
    /// decoding side.
    pub fn encode(&mut self, kind: FrameKind, payload: &[u8], dst: &mut BytesMut)
        requires
            buffer_bytes(*old(dst)).len() + HEADER_LEN + payload@.len() <= isize::MAX,
        ensures
            *final(self) == *old(self),
            buffer_bytes(*final(dst)) == buffer_bytes(*old(dst)) + frame_bytes(kind, payload@),
    {
        let ghost before = buffer_bytes(*dst);
        let n = payload.len();
        buf_reserve(dst, HEADER_LEN + n);
        let len32 = ((n as u64) % 0x1_0000_0000) as u32;
        buf_put_u32(dst, len32);
        buf_put_u8(dst, kind.to_byte());
        buf_put_slice(dst, payload);
        proof {
            assert(buffer_bytes(*dst) =~= before + frame_bytes(kind, payload@));
        }
    }
}

// ─── LAWS ────────────────────────────────────────────────────────────────────

/// A frame read back: decoding the bytes of a frame whose payload is within
/// the cap, followed by any further bytes, gives that frame's kind and
/// payload and consumes exactly the frame.
pub proof fn lemma_frame_roundtrip(kind: FrameKind, payload: Seq<u8>, rest: Seq<u8>)
    requires
        payload.len() <= MAX_FRAME_PAYLOAD,
    ensures
        ({
            let buf = frame_bytes(kind, payload) + rest;
            spec_decode(buf) == DecodeStep::Complete {
                kind,
                payload,
                consumed: (HEADER_LEN + payload.len()) as nat,
            } && buf.skip(HEADER_LEN + payload.len()) == rest
        }),
{
    let n = (payload.len() % 0x1_0000_0000) as u32;
    assert(n == payload.len());
    lemma_be_roundtrip(n);
    let buf = frame_bytes(kind, payload) + rest;
    let hdr = u32_be_bytes(n);
    assert(buf[0] == hdr[0] && buf[1] == hdr[1] && buf[2] == hdr[2] && buf[3] == hdr[3]);
    assert(be_value(buf) == be_value(hdr));
    assert(buf[4] == kind_byte(kind));
    assert(buf.subrange(HEADER_LEN as int, HEADER_LEN + payload.len()) =~= payload);
    assert(buf.skip(HEADER_LEN + payload.len()) =~= rest);
}

/// Decoding consumes nothing until a whole frame is there: on a stream that
/// ends inside a frame (or its header) whose declared length is within the
/// cap, decoding reports that more bytes are needed.
pub proof fn lemma_prefix_is_incomplete(kind: FrameKind, payload: Seq<u8>, cut: int)
    requires
        payload.len() <= MAX_FRAME_PAYLOAD,
        0 <= cut < frame_bytes(kind, payload).len(),
    ensures
        spec_decode(frame_bytes(kind, payload).take(cut)) == DecodeStep::Incomplete,
{
    let n = (payload.len() % 0x1_0000_0000) as u32;
    lemma_be_roundtrip(n);
    let full = frame_bytes(kind, payload);
    let part = full.take(cut);
    if cut >= HEADER_LEN {
        let hdr = u32_be_bytes(n);
        assert(part[0] == hdr[0] && part[1] == hdr[1] && part[2] == hdr[2] && part[3] == hdr[3]);
        assert(be_value(part) == payload.len());
    }
}

/// An oversized declared length is refused as soon as the header is there:
/// whatever follows the five header bytes, decoding reports the declared
/// length as too large.
pub proof fn lemma_oversized_rejected_at_header(header: Seq<u8>, rest: Seq<u8>)
    requires
        header.len() == HEADER_LEN,
        (be_value(header) > MAX_FRAME_PAYLOAD),
    ensures
        spec_decode(header + rest) == (DecodeStep::TooLarge { declared: be_value(header) }),
{
    let buf = header + rest;
    assert(buf[0] == header[0] && buf[1] == header[1] && buf[2] == header[2] && buf[3] == header[3]);
}

} // verus!
