//! `FrameCodec` encode/decode over in-memory byte buffers.

use bytes::{BufMut, BytesMut};
use forge_worker_sdk::framing::{append_bytes, buffer_len, Encoding, FrameCodec, FrameError, FrameKind};
use forge_worker_sdk::{Frame, MAX_FRAME_PAYLOAD};
use forge_worker_sdk::protocol::WireRequest;

#[test]
fn decode_rejects_oversized_length() {
    let mut buf = BytesMut::new();
    buf.put_u32((MAX_FRAME_PAYLOAD as u32).saturating_add(1));
    // KIND_REQUEST
    buf.put_u8(1u8);

    let mut codec = FrameCodec::json();
    let err = codec.decode(&mut buf).unwrap_err();
    assert!(err.message().contains("too large"));
}

#[test]
fn oversized_error_message_and_nothing_consumed() {
    let mut buf = BytesMut::new();
    buf.put_u32(MAX_FRAME_PAYLOAD as u32 + 1);
    buf.put_u8(1u8);
    let mut codec = FrameCodec::msgpack();
    let err = codec.decode(&mut buf).unwrap_err();
    assert_eq!(err, FrameError::TooLarge { len: 67108865 });
    assert_eq!(err.message(), "frame payload too large: 67108865 bytes (max 67108864)");
    assert_eq!(buf.len(), 5);
}

#[test]
fn encode_writes_header_and_payload() {
    let mut codec = FrameCodec::new(Encoding::Json);
    let mut dst = BytesMut::new();
    codec.encode(FrameKind::Response, b"abc", &mut dst);
    assert_eq!(&dst[..], &[0, 0, 0, 3, 2, b'a', b'b', b'c']);
}

#[test]
fn roundtrip_each_kind_with_trailing_bytes() {
    let mut codec = FrameCodec::msgpack();
    for kind in [FrameKind::Request, FrameKind::Response, FrameKind::Event] {
        let mut buf = BytesMut::new();
        let payload: Vec<u8> = (0..300u32).map(|i| (i % 251) as u8).collect();
        codec.encode(kind, &payload, &mut buf);
        buf.put_slice(b"next");
        let frame = codec.decode(&mut buf).unwrap().expect("whole frame");
        assert_eq!(frame.kind, kind);
        assert_eq!(&frame.payload[..], &payload[..]);
        assert_eq!(&buf[..], b"next");
    }
}

#[test]
fn partial_frames_wait_for_more() {
    let mut codec = FrameCodec::json();
    let mut whole = BytesMut::new();
    codec.encode(FrameKind::Request, b"hello", &mut whole);
    for cut in 0..whole.len() {
        let mut part = BytesMut::from(&whole[..cut]);
        assert!(codec.decode(&mut part).unwrap().is_none());
        assert_eq!(&part[..], &whole[..cut]);
    }
    let mut all = whole.clone();
    let f = codec.decode(&mut all).unwrap().unwrap();
    assert_eq!(f.kind, FrameKind::Request);
    assert_eq!(&f.payload[..], b"hello");
    assert!(all.is_empty());
}

#[test]
fn unknown_kind_is_consumed_and_reported() {
    let mut buf = BytesMut::new();
    buf.put_u32(2);
    buf.put_u8(9);
    buf.put_slice(b"xyz");
    let mut codec = FrameCodec::json();
    let err = codec.decode(&mut buf).unwrap_err();
    assert_eq!(err, FrameError::UnknownKind { kind: 9 });
    assert_eq!(err.message(), "unknown frame kind: 9");
    assert_eq!(&buf[..], b"z");
}

#[test]
fn empty_payload_frame() {
    let mut codec = FrameCodec::json();
    let mut buf = BytesMut::new();
    codec.encode(FrameKind::Event, b"", &mut buf);
    assert_eq!(&buf[..], &[0, 0, 0, 0, 3]);
    let f = codec.decode(&mut buf).unwrap().unwrap();
    assert_eq!(f.kind, FrameKind::Event);
    assert!(f.payload.is_empty());
}

#[test]
fn frame_kind_bytes() {
    assert_eq!(FrameKind::Request.to_byte(), 1);
    assert_eq!(FrameKind::Response.to_byte(), 2);
    assert_eq!(FrameKind::Event.to_byte(), 3);
    assert_eq!(FrameKind::from_byte(2), Some(FrameKind::Response));
    assert_eq!(FrameKind::from_byte(0), None);
    let f = Frame::Request(WireRequest { id: "1".into(), method: "ping".into(), params: None });
    assert_eq!(f.kind(), FrameKind::Request);
}

#[test]
fn encoding_names_and_parsing() {
    assert_eq!(Encoding::Msgpack.wire_name(), "msgpack");
    assert_eq!(Encoding::Json.wire_name(), "json");
    assert_eq!(Encoding::parse("JSON"), Encoding::Json);
    assert_eq!(Encoding::parse("jSoN"), Encoding::Json);
    assert_eq!(Encoding::parse("json "), Encoding::Msgpack);
    assert_eq!(Encoding::parse("msgpack"), Encoding::Msgpack);
    assert_eq!(Encoding::parse(""), Encoding::Msgpack);
    let e: Encoding = "Json".parse().unwrap();
    assert_eq!(e, Encoding::Json);
    for e in [Encoding::Msgpack, Encoding::Json] {
        assert_eq!(Encoding::parse(e.wire_name()), e);
    }
    assert_eq!(FrameCodec::json().encoding(), Encoding::Json);
    assert_eq!(FrameCodec::msgpack().encoding(), Encoding::Msgpack);
}

#[test]
fn roundtrip_leaves_trailing_bytes_in_the_buffer() {
    let mut codec = FrameCodec::msgpack();
    let mut buf = BytesMut::new();
    codec.encode(FrameKind::Event, b"xyz", &mut buf);
    assert!(append_bytes(&mut buf, &[9, 8]));
    assert_eq!(buffer_len(&buf), 10);
    let raw = codec.decode(&mut buf).unwrap().expect("whole frame");
    assert_eq!(raw.kind, FrameKind::Event);
    assert_eq!(&raw.payload[..], b"xyz");
    assert_eq!(&buf[..], &[9, 8]);
}
