use bytes::{Bytes, BytesMut};
use hytch::{CodecError, Message, MessageCodec, RedrawMethod, DEFAULT_MAX_FRAME_LEN};

fn roundtrip(msg: Message) {
    let mut codec = MessageCodec::default();
    let mut buf = BytesMut::new();
    codec.encode(msg.clone(), &mut buf).expect("encode");
    let decoded = codec
        .decode(&mut buf)
        .expect("decode")
        .expect("a full frame should decode in one shot");
    assert_eq!(decoded, msg);
    assert!(buf.is_empty(), "codec must consume exactly one frame");
}

#[test]
fn roundtrip_push_empty() {
    roundtrip(Message::Push(Bytes::new()));
}

#[test]
fn roundtrip_push_typical() {
    roundtrip(Message::Push(Bytes::from_static(b"ls -la\n")));
}

#[test]
fn roundtrip_push_at_max_frame_len() {
    let payload = vec![b'x'; DEFAULT_MAX_FRAME_LEN];
    roundtrip(Message::Push(Bytes::from(payload)));
}

#[test]
fn roundtrip_attach_skip_ring_true() {
    roundtrip(Message::Attach { skip_ring: true });
}

#[test]
fn roundtrip_attach_skip_ring_false() {
    roundtrip(Message::Attach { skip_ring: false });
}

#[test]
fn roundtrip_detach() {
    roundtrip(Message::Detach);
}

#[test]
fn roundtrip_winch() {
    roundtrip(Message::Winch { rows: 24, cols: 80 });
}

#[test]
fn roundtrip_winch_max_dimensions() {
    roundtrip(Message::Winch {
        rows: u16::MAX,
        cols: u16::MAX,
    });
}

#[test]
fn roundtrip_redraw_all_methods() {
    for method in [
        RedrawMethod::Unspecified,
        RedrawMethod::NoRedraw,
        RedrawMethod::CtrlL,
        RedrawMethod::Winch,
    ] {
        roundtrip(Message::Redraw {
            method,
            rows: 24,
            cols: 80,
        });
    }
}

#[test]
fn roundtrip_kill() {
    roundtrip(Message::Kill { signal: 15 });
    roundtrip(Message::Kill { signal: 9 });
}

#[test]
fn decode_returns_none_on_partial_frame() {
    let mut codec = MessageCodec::default();
    let mut full = BytesMut::new();
    codec
        .encode(Message::Push(Bytes::from_static(b"hello world")), &mut full)
        .unwrap();

    let mut buf = BytesMut::new();
    let mut produced = None;
    for &byte in full.iter() {
        buf.extend_from_slice(&[byte]);
        match codec.decode(&mut buf).unwrap() {
            None => continue,
            Some(msg) => {
                produced = Some(msg);
                break;
            }
        }
    }
    assert_eq!(
        produced,
        Some(Message::Push(Bytes::from_static(b"hello world")))
    );
}

#[test]
fn decode_handles_two_frames_in_one_buffer() {
    let mut codec = MessageCodec::default();
    let mut buf = BytesMut::new();
    codec.encode(Message::Detach, &mut buf).unwrap();
    codec
        .encode(Message::Kill { signal: 15 }, &mut buf)
        .unwrap();

    let first = codec.decode(&mut buf).unwrap().unwrap();
    let second = codec.decode(&mut buf).unwrap().unwrap();
    assert_eq!(first, Message::Detach);
    assert_eq!(second, Message::Kill { signal: 15 });
    assert!(buf.is_empty());
}

#[test]
fn decode_rejects_frame_over_max_len() {
    let mut codec = MessageCodec::default();
    let mut buf = BytesMut::new();
    buf.extend_from_slice(&[0u8]);
    buf.extend_from_slice(&((DEFAULT_MAX_FRAME_LEN as u32) + 1).to_be_bytes());
    let result = codec.decode(&mut buf);
    assert!(result.is_err(), "oversized frame length must be rejected");
}

#[test]
fn decode_never_panics_on_garbage() {
    let mut codec = MessageCodec::default();
    let garbage_samples: &[&[u8]] = &[
        &[],
        &[0xFF],
        &[0xFF, 0xFF, 0xFF, 0xFF, 0xFF],
        &[0x02, 0x00, 0x00, 0x00, 0x01, 0x00],
        &[0x00, 0xFF, 0xFF, 0xFF, 0xFF],
    ];
    for sample in garbage_samples {
        let mut buf = BytesMut::from(*sample);
        let _ = codec.decode(&mut buf);
    }
}

#[test]
fn every_signal_and_many_sizes_round_trip() {
    for signal in 0..=u8::MAX {
        roundtrip(Message::Kill { signal });
    }
    for n in [0u16, 1, 255, 256, 4660, 65535] {
        roundtrip(Message::Winch {
            rows: n,
            cols: n.wrapping_add(1),
        });
    }
    for len in [1usize, 8, 9, 4096, 8191] {
        let payload: Vec<u8> = (0..len).map(|i| i as u8).collect();
        roundtrip(Message::Push(Bytes::from(payload)));
    }
}

#[test]
fn frames_have_the_documented_bytes() {
    let mut codec = MessageCodec::default();
    let mut buf = BytesMut::new();
    codec
        .encode(Message::Push(Bytes::from_static(b"hi")), &mut buf)
        .unwrap();
    codec
        .encode(Message::Attach { skip_ring: true }, &mut buf)
        .unwrap();
    codec.encode(Message::Detach, &mut buf).unwrap();
    codec
        .encode(Message::Winch { rows: 258, cols: 3 }, &mut buf)
        .unwrap();
    codec
        .encode(
            Message::Redraw {
                method: RedrawMethod::CtrlL,
                rows: 24,
                cols: 80,
            },
            &mut buf,
        )
        .unwrap();
    codec.encode(Message::Kill { signal: 9 }, &mut buf).unwrap();
    assert_eq!(
        &buf[..],
        &[
            0, 0, 0, 0, 2, b'h', b'i', 1, 0, 0, 0, 1, 1, 2, 0, 0, 0, 0, 3, 0, 0, 0, 4, 1, 2, 0, 3,
            4, 0, 0, 0, 5, 2, 0, 24, 0, 80, 5, 0, 0, 0, 1, 9,
        ][..]
    );
}

fn decode_all(bytes: &[u8]) -> Result<Option<Message>, CodecError> {
    let mut buf = BytesMut::from(bytes);
    MessageCodec::default().decode(&mut buf)
}

#[test]
fn each_malformed_frame_has_its_error() {
    assert_eq!(
        decode_all(&[9, 0, 0, 0, 0]),
        Err(CodecError::UnknownMessageType { tag: 9 })
    );
    assert_eq!(
        decode_all(&[4, 0, 0, 0, 5, 4, 0, 1, 0, 1]),
        Err(CodecError::UnknownRedrawMethod { code: 4 })
    );
    assert_eq!(
        decode_all(&[2, 0, 0, 0, 1, 0]),
        Err(CodecError::PayloadLength {
            expected: 0,
            got: 1
        })
    );
    assert_eq!(
        decode_all(&[3, 0, 0, 0, 0]),
        Err(CodecError::PayloadLength {
            expected: 4,
            got: 0
        })
    );
    assert_eq!(
        decode_all(&[0, 0, 1, 0, 1]),
        Err(CodecError::FrameTooLong {
            len: 65537,
            max: 65536
        })
    );
}

#[test]
fn errors_in_words() {
    assert_eq!(
        CodecError::FrameTooLong {
            len: 65537,
            max: 65536
        }
        .message(),
        "frame length 65537 exceeds max 65536"
    );
    assert_eq!(
        CodecError::PayloadLength {
            expected: 4,
            got: 0
        }
        .message(),
        "expected 4-byte payload, got 0"
    );
    assert_eq!(
        CodecError::UnknownRedrawMethod { code: 200 }.message(),
        "unknown redraw method 200"
    );
    assert_eq!(
        CodecError::UnknownMessageType { tag: 9 }.message(),
        "unknown message type 9"
    );
}

#[test]
fn a_codec_has_its_own_limit() {
    let mut codec = MessageCodec::new(3);
    let mut buf = BytesMut::from(&[0u8, 0, 0, 0, 3, 1, 2, 3, 77][..]);
    assert_eq!(
        codec.decode(&mut buf),
        Ok(Some(Message::Push(Bytes::from_static(&[1, 2, 3]))))
    );
    assert_eq!(&buf[..], &[77][..]);
    let mut buf = BytesMut::from(&[0u8, 0, 0, 0, 4][..]);
    assert_eq!(
        codec.decode(&mut buf),
        Err(CodecError::FrameTooLong { len: 4, max: 3 })
    );
    assert_eq!(buf.len(), 5);
}

#[test]
fn any_nonzero_byte_skips_the_ring() {
    assert_eq!(
        decode_all(&[1, 0, 0, 0, 1, 7]),
        Ok(Some(Message::Attach { skip_ring: true }))
    );
}

#[test]
fn redraw_methods_have_codes() {
    assert_eq!(RedrawMethod::Unspecified.to_u8(), 0);
    assert_eq!(RedrawMethod::NoRedraw.to_u8(), 1);
    assert_eq!(RedrawMethod::CtrlL.to_u8(), 2);
    assert_eq!(RedrawMethod::Winch.to_u8(), 3);
    for code in 0..=3 {
        assert_eq!(RedrawMethod::from_u8(code).map(|m| m.to_u8()), Some(code));
    }
    assert_eq!(RedrawMethod::from_u8(4), None);
}
