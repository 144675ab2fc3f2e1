use bytes::{Bytes, BytesMut};
use lumberjack::{Error, Frame, LumberjackCodec};

#[test]
fn encode_then_decode_window() {
    let mut codec = LumberjackCodec::new();
    let mut buf = BytesMut::new();
    codec.encode(Frame::Window(5), &mut buf).unwrap();
    let out = codec.decode(&mut buf).unwrap().unwrap();
    assert_eq!(out, Frame::Window(5));
}

#[test]
fn decode_streams_back_to_back_frames() {
    let mut codec = LumberjackCodec::new();
    let mut buf = BytesMut::new();
    codec.encode(Frame::Window(2), &mut buf).unwrap();
    codec.encode(Frame::Json { seq: 1, data: Bytes::from_static(b"{}") }, &mut buf).unwrap();
    codec.encode(Frame::Json { seq: 2, data: Bytes::from_static(b"[]") }, &mut buf).unwrap();

    let f1 = codec.decode(&mut buf).unwrap().unwrap();
    let f2 = codec.decode(&mut buf).unwrap().unwrap();
    let f3 = codec.decode(&mut buf).unwrap().unwrap();
    assert_eq!(f1, Frame::Window(2));
    assert_eq!(f2, Frame::Json { seq: 1, data: Bytes::from_static(b"{}") });
    assert_eq!(f3, Frame::Json { seq: 2, data: Bytes::from_static(b"[]") });
    assert!(buf.is_empty());
}

#[test]
fn the_limit_is_kept() {
    let mut codec = LumberjackCodec::with_max_frame_size(3);
    let mut buf = BytesMut::new();
    codec.encode(Frame::Json { seq: 1, data: Bytes::from_static(b"1234") }, &mut buf).unwrap();
    assert!(matches!(
        codec.clone().decode(&mut buf),
        Err(Error::FrameTooLarge { size: 4, max: 3 })
    ));
    assert_eq!(LumberjackCodec::default().max_frame_size, 16 * 1024 * 1024);
}

#[test]
fn a_frame_is_read_once_its_last_byte_is_there() {
    let mut codec = LumberjackCodec::new();
    let mut whole = BytesMut::new();
    codec.encode(Frame::Compressed(Bytes::from_static(b"some bytes")), &mut whole).unwrap();
    let mut buf = BytesMut::new();
    for (i, byte) in whole.iter().enumerate() {
        assert!(codec.decode(&mut buf).unwrap().is_none(), "after {i} bytes");
        buf.extend_from_slice(&[*byte]);
    }
    assert_eq!(
        codec.decode(&mut buf).unwrap(),
        Some(Frame::Compressed(Bytes::from_static(b"some bytes")))
    );
    assert!(buf.is_empty());
}

#[test]
fn portions_make_no_difference() {
    let frames = [
        Frame::Window(2),
        Frame::Compressed(Bytes::from_static(b"some bytes")),
        Frame::Json { seq: 1, data: Bytes::from_static(b"{}") },
        Frame::Ack(3),
    ];
    let mut codec = LumberjackCodec::new();
    let mut whole = BytesMut::new();
    for frame in &frames {
        codec.encode(frame.clone(), &mut whole).unwrap();
    }
    for split in 0..=whole.len() {
        let mut buf = BytesMut::new();
        let mut read = Vec::new();
        for portion in [&whole[..split], &whole[split..]] {
            buf.extend_from_slice(portion);
            while let Some(frame) = codec.decode(&mut buf).unwrap() {
                read.push(frame);
            }
        }
        assert_eq!(read, frames);
        assert!(buf.is_empty());
    }
}
