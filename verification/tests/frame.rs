use bytes::{Bytes, BytesMut};
use lumberjack::frame::{encode_compressed, DEFAULT_MAX_FRAME_SIZE};
use lumberjack::zlib::{accept_piece, zlib_compress, zlib_decompress};
use lumberjack::{Error, Frame};

#[test]
fn window_round_trip() {
    let mut buf = BytesMut::new();
    Frame::Window(42).encode(&mut buf);
    assert_eq!(&buf[..], &[b'2', b'W', 0, 0, 0, 42]);

    let decoded = Frame::decode(&mut buf).unwrap().unwrap();
    assert_eq!(decoded, Frame::Window(42));
    assert!(buf.is_empty());
}

#[test]
fn window_partial_returns_none() {
    let mut buf = BytesMut::from(&[b'2', b'W', 0, 0][..]);
    assert!(Frame::decode(&mut buf).unwrap().is_none());
    assert_eq!(buf.len(), 4, "decode must not consume bytes when incomplete");
}

#[test]
fn invalid_version_errors() {
    let mut buf = BytesMut::from(&[b'1', b'W', 0, 0, 0, 1][..]);
    assert!(matches!(
        Frame::decode(&mut buf),
        Err(Error::InvalidFrame("unsupported protocol version"))
    ));
}

#[test]
fn unknown_type_errors() {
    let mut buf = BytesMut::from(&[b'2', b'X'][..]);
    assert!(matches!(Frame::decode(&mut buf), Err(Error::InvalidFrame("unknown frame type"))));
}

#[test]
fn json_round_trip() {
    let payload = Bytes::from_static(b"{\"hello\":\"world\"}");
    let frame = Frame::Json { seq: 7, data: payload.clone() };

    let mut buf = BytesMut::new();
    frame.encode(&mut buf);

    assert_eq!(&buf[..2], &[b'2', b'J']);
    assert_eq!(buf.len(), 2 + 4 + 4 + payload.len());

    let decoded = Frame::decode(&mut buf).unwrap().unwrap();
    assert_eq!(decoded, Frame::Json { seq: 7, data: payload });
    assert!(buf.is_empty());
}

#[test]
fn json_partial_returns_none() {
    let frame = Frame::Json { seq: 1, data: Bytes::from_static(b"abc") };
    let mut full = BytesMut::new();
    frame.encode(&mut full);

    for take in 0..full.len() {
        let mut partial = BytesMut::from(&full[..take]);
        assert!(
            Frame::decode(&mut partial).unwrap().is_none(),
            "len={take} should be incomplete"
        );
        assert_eq!(partial.len(), take, "must not consume on incomplete");
    }
}

#[test]
fn json_oversize_errors() {
    let mut buf = BytesMut::new();
    buf.extend_from_slice(&[b'2', b'J']);
    buf.extend_from_slice(&0u32.to_be_bytes());
    buf.extend_from_slice(&10u32.to_be_bytes());
    buf.extend_from_slice(&[0u8; 10]);

    let res = Frame::decode_with_limit(&mut buf, 5);
    assert!(matches!(res, Err(Error::FrameTooLarge { size: 10, max: 5 })));
}

#[test]
fn ack_round_trip() {
    let mut buf = BytesMut::new();
    Frame::Ack(99).encode(&mut buf);
    assert_eq!(&buf[..], &[b'2', b'A', 0, 0, 0, 99]);

    let decoded = Frame::decode(&mut buf).unwrap().unwrap();
    assert_eq!(decoded, Frame::Ack(99));
}

#[test]
fn ack_zero_round_trip() {
    let mut buf = BytesMut::new();
    Frame::Ack(0).encode(&mut buf);
    let decoded = Frame::decode(&mut buf).unwrap().unwrap();
    assert_eq!(decoded, Frame::Ack(0));
}

#[test]
fn ack_partial_returns_none() {
    let mut buf = BytesMut::from(&[b'2', b'A', 0, 0][..]);
    assert!(Frame::decode(&mut buf).unwrap().is_none());
}

#[test]
fn compressed_round_trip() {
    let inner_a = Frame::Json { seq: 1, data: Bytes::from_static(b"{\"a\":1}") };
    let inner_b = Frame::Json { seq: 2, data: Bytes::from_static(b"{\"b\":2}") };
    let mut inner = BytesMut::new();
    inner_a.encode(&mut inner);
    inner_b.encode(&mut inner);
    let inner_bytes = inner.freeze();

    let mut buf = BytesMut::new();
    Frame::Compressed(inner_bytes.clone()).encode(&mut buf);

    let decoded = Frame::decode(&mut buf).unwrap().unwrap();
    match decoded {
        Frame::Compressed(b) => assert_eq!(b, inner_bytes),
        other => panic!("expected Compressed, got {other:?}"),
    }
}

#[test]
fn compressed_corrupted_payload_errors() {
    let mut buf = BytesMut::new();
    buf.extend_from_slice(&[b'2', b'C']);
    buf.extend_from_slice(&4u32.to_be_bytes());
    buf.extend_from_slice(&[0xFF, 0xFF, 0xFF, 0xFF]);
    assert!(matches!(Frame::decode(&mut buf), Err(Error::Compression(_))));
}

#[test]
fn compressed_partial_returns_none() {
    let mut full = BytesMut::new();
    Frame::Compressed(Bytes::from_static(b"hello world hello world hello world hello world"))
        .encode(&mut full);
    for take in 0..full.len() {
        let mut partial = BytesMut::from(&full[..take]);
        assert!(Frame::decode(&mut partial).unwrap().is_none());
    }
}

#[test]
fn numbers_are_big_endian() {
    let mut buf = BytesMut::new();
    Frame::Json { seq: 0x01020304, data: Bytes::from_static(b"xy") }.encode(&mut buf);
    assert_eq!(&buf[..], &[b'2', b'J', 1, 2, 3, 4, 0, 0, 0, 2, b'x', b'y']);
}

#[test]
fn frames_are_read_whatever_follows() {
    let frames = [
        Frame::Window(3),
        Frame::Json { seq: 4, data: Bytes::from_static(b"") },
        Frame::Compressed(Bytes::from_static(b"abc")),
        Frame::Ack(u32::MAX),
    ];
    for frame in frames {
        let mut buf = BytesMut::new();
        frame.encode(&mut buf);
        buf.extend_from_slice(b"2W\0");
        assert_eq!(Frame::decode(&mut buf).unwrap(), Some(frame.clone()));
        assert_eq!(&buf[..], b"2W\0");
    }
}

#[test]
fn a_payload_at_the_limit_is_accepted() {
    let mut buf = BytesMut::new();
    Frame::Json { seq: 1, data: Bytes::from_static(b"12345") }.encode(&mut buf);
    let mut again = buf.clone();
    assert!(Frame::decode_with_limit(&mut buf, 5).unwrap().is_some());
    let before = again.len();
    assert!(matches!(
        Frame::decode_with_limit(&mut again, 4),
        Err(Error::FrameTooLarge { size: 5, max: 4 })
    ));
    assert_eq!(again.len(), before);
}

#[test]
fn a_compressed_length_over_the_limit_is_refused_before_its_bytes_arrive() {
    let mut buf = BytesMut::from(&[b'2', b'C', 0, 0, 1, 0][..]);
    assert!(matches!(
        Frame::decode_with_limit(&mut buf, 255),
        Err(Error::FrameTooLarge { size: 256, max: 255 })
    ));
    assert_eq!(buf.len(), 6);
}

#[test]
fn a_stream_that_inflates_beyond_the_limit_is_given_up() {
    let deflated = zlib_compress(&vec![7u8; 100_000]);
    assert!(deflated.len() < 1000);
    let mut buf = BytesMut::new();
    encode_compressed(&deflated, &mut buf);
    buf.extend_from_slice(&[b'2', b'A', 0, 0, 0, 9]);
    match Frame::decode_with_limit(&mut buf, 10_000) {
        Err(Error::FrameTooLarge { size, max: 10_000 }) => assert!(size > 10_000 && size < 100_000),
        other => panic!("expected FrameTooLarge, got {other:?}"),
    }
    // The frame is dropped all the same.
    assert_eq!(Frame::decode(&mut buf).unwrap(), Some(Frame::Ack(9)));
}

#[test]
fn zlib_gives_back_what_it_took() {
    let input: Vec<u8> = (0..50_000u32).map(|i| (i % 251) as u8).collect();
    let deflated = zlib_compress(&input);
    assert_ne!(deflated, input);
    assert_eq!(zlib_decompress(&deflated, input.len()).unwrap(), input);
    assert!(matches!(
        zlib_decompress(&deflated, input.len() - 1),
        Err(Error::FrameTooLarge { .. })
    ));
    // A stream that is cut short is an error, too.
    assert!(matches!(
        zlib_decompress(&deflated[..deflated.len() / 2], input.len()),
        Err(Error::Compression(_))
    ));
}

#[test]
fn pieces_are_accepted_up_to_the_limit() {
    let mut out = vec![1u8, 2];
    assert!(accept_piece(&mut out, &[3, 4], 4).is_ok());
    assert_eq!(out, [1, 2, 3, 4]);
    assert!(matches!(
        accept_piece(&mut out, &[5], 4),
        Err(Error::FrameTooLarge { size: 5, max: 4 })
    ));
    assert_eq!(out, [1, 2, 3, 4]);
}

#[test]
fn the_default_limit_is_sixteen_mebibytes() {
    assert_eq!(DEFAULT_MAX_FRAME_SIZE, 16_777_216);
    let mut buf = BytesMut::new();
    buf.extend_from_slice(&[b'2', b'J', 0, 0, 0, 1]);
    buf.extend_from_slice(&16_777_217u32.to_be_bytes());
    assert!(matches!(
        Frame::decode(&mut buf),
        Err(Error::FrameTooLarge { size: 16_777_217, max: 16_777_216 })
    ));
}
