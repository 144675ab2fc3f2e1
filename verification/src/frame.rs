//! Frames, and the bytes that they are on the wire.
//!
//! Every frame begins with the version of the protocol and a type, one byte each.
//! All numbers are big-endian.
//!
//! | type | after the two bytes |
//! |---|---|
//! | `W` | how many events the batch holds, 4 bytes |
//! | `J` | sequence number, 4 bytes; length, 4 bytes; payload |
//! | `C` | length, 4 bytes; zlib stream of `J` frames |
//! | `A` | sequence number, 4 bytes |

use bytes::{Bytes, BytesMut};
use vstd::prelude::*;

use crate::buffer::{advance, be_at, be_bytes, be_value, buffer_contents, buffer_slice};
use crate::buffer::{bytes_contents, bytes_slice, get_u32, put_u32, put_u8};
use crate::error::{Error, ErrorView};
use crate::laws::{lemma_reads_back, reads_back};
use crate::zlib::{inflate, zlib_compress, zlib_decompress, zlib_deflated, ZLIB_LEVEL};

verus! {

/// `2`
pub const PROTOCOL_VERSION: u8 = 0x32;

/// `W`
pub const TYPE_WINDOW: u8 = 0x57;

/// `J`
pub const TYPE_JSON: u8 = 0x4a;

/// `C`
pub const TYPE_COMPRESSED: u8 = 0x43;

/// `A`
pub const TYPE_ACK: u8 = 0x41;

/// The largest payload of a single frame, in bytes, unless another limit is set.
pub const DEFAULT_MAX_FRAME_SIZE: usize = 16 * 1024 * 1024;

#[derive(Debug, PartialEq, Eq)]
pub enum Frame {
    Window(u32),
    Json { seq: u32, data: Bytes },
    /// On the wire this carries compressed bytes; in memory it holds the
    /// *decompressed* inner bytes, a concatenation of `J` frames. The encoder
    /// compresses on the way out, the decoder decompresses on the way in.
    Compressed(Bytes),
    Ack(u32),
}

/// A [`Frame`], its bytes taken as sequences.
pub enum FrameView {
    Window(u32),
    Json { seq: u32, data: Seq<u8> },
    Compressed(Seq<u8>),
    Ack(u32),
}

impl View for Frame {
    type V = FrameView;

    open spec fn view(&self) -> FrameView {
        match *self {
            Frame::Window(n) => FrameView::Window(n),
            Frame::Json { seq, data } => FrameView::Json {
                seq,
                data: bytes_contents(data),
            },
            Frame::Compressed(inner) => FrameView::Compressed(
                bytes_contents(inner),
            ),
            Frame::Ack(seq) => FrameView::Ack(seq),
        }
    }
}

impl Clone for Frame {
    fn clone(&self) -> (copy: Frame)
        ensures
            copy@ == self@,
    {
        match self {
            Frame::Window(n) => Frame::Window(*n),
            Frame::Json { seq, data } => Frame::Json { seq: *seq, data: data.clone() },
            Frame::Compressed(inner) => Frame::Compressed(inner.clone()),
            Frame::Ack(seq) => Frame::Ack(*seq),
        }
    }
}

/// A length as the four bytes of a length field hold it: its low 32 bits.
pub open spec fn length_field(len: nat) -> u32 {
    (len % 0x1_0000_0000) as u32
}

/// The compressed frame that carries `deflated`, on the wire.
pub open spec fn compressed_wire(deflated: Seq<u8>) -> Seq<u8> {
    seq![PROTOCOL_VERSION, TYPE_COMPRESSED] + be_bytes(length_field(deflated.len()))
        + deflated
}

/// `frame` on the wire.
pub open spec fn wire(frame: FrameView) -> Seq<u8> {
    match frame {
        FrameView::Window(n) => seq![PROTOCOL_VERSION, TYPE_WINDOW] + be_bytes(n),
        FrameView::Json { seq, data } => seq![PROTOCOL_VERSION, TYPE_JSON]
            + be_bytes(seq) + be_bytes(length_field(data.len())) + data,
        FrameView::Compressed(inner) => compressed_wire(
            zlib_deflated(inner, ZLIB_LEVEL),
        ),
        FrameView::Ack(seq) => seq![PROTOCOL_VERSION, TYPE_ACK] + be_bytes(seq),
    }
}

/// `frames` on the wire, one after the other.
pub open spec fn wire_all(frames: Seq<FrameView>) -> Seq<u8>
    decreases frames.len(),
{
    if frames.len() == 0 {
        Seq::empty()
    } else {
        wire(frames[0]) + wire_all(frames.drop_first())
    }
}

pub(crate) proof fn lemma_wire_all_push(frames: Seq<FrameView>, frame: FrameView)
    ensures
        wire_all(frames.push(frame)) == wire_all(frames) + wire(frame),
    decreases frames.len(),
{
    let more = frames.push(frame);
    if frames.len() == 0 {
        assert(more.drop_first() =~= frames);
        assert(wire(frame) + wire_all(frames) =~= wire_all(frames) + wire(frame));
    } else {
        assert(more.drop_first() =~= frames.drop_first().push(frame));
        lemma_wire_all_push(frames.drop_first(), frame);
        assert(wire_all(more) =~= wire_all(frames) + wire(frame));
    }
}

/// What the front of a stream of bytes turns out to be.
pub enum Decoded {
    /// The beginning of a frame whose end has not arrived.
    Incomplete,
    /// A frame, and how many bytes it takes up.
    Complete(FrameView, nat),
    /// No frame, and how many bytes are dropped on finding out.
    Malformed(ErrorView, nat),
}

/// What the front of `src` is, where no payload may exceed `max` bytes.
pub open spec fn decoded(src: Seq<u8>, max: usize) -> Decoded {
    if src.len() < 2 {
        Decoded::Incomplete
    } else if src[0] != PROTOCOL_VERSION {
        Decoded::Malformed(
            ErrorView::InvalidFrame("unsupported protocol version"@),
            0,
        )
    } else if src[1] == TYPE_WINDOW {
        if src.len() < 6 {
            Decoded::Incomplete
        } else {
            Decoded::Complete(FrameView::Window(be_value(src.skip(2))), 6)
        }
    } else if src[1] == TYPE_JSON {
        decoded_json(src, max)
    } else if src[1] == TYPE_ACK {
        if src.len() < 6 {
            Decoded::Incomplete
        } else {
            Decoded::Complete(FrameView::Ack(be_value(src.skip(2))), 6)
        }
    } else if src[1] == TYPE_COMPRESSED {
        decoded_compressed(src, max)
    } else {
        Decoded::Malformed(ErrorView::InvalidFrame("unknown frame type"@), 0)
    }
}

/// What `src` is, when its first two bytes begin a `J` frame.
pub open spec fn decoded_json(src: Seq<u8>, max: usize) -> Decoded {
    if src.len() < 10 {
        Decoded::Incomplete
    } else {
        let len = be_value(src.skip(6));
        if len > max {
            Decoded::Malformed(
                ErrorView::FrameTooLarge { size: len as usize, max },
                0,
            )
        } else if src.len() < 10 + len {
            Decoded::Incomplete
        } else {
            Decoded::Complete(
                FrameView::Json {
                    seq: be_value(src.skip(2)),
                    data: src.subrange(10, 10 + len),
                },
                (10 + len) as nat,
            )
        }
    }
}

/// What `src` is, when its first two bytes begin a `C` frame.
pub open spec fn decoded_compressed(src: Seq<u8>, max: usize) -> Decoded {
    if src.len() < 6 {
        Decoded::Incomplete
    } else {
        let len = be_value(src.skip(2));
        if len > max {
            Decoded::Malformed(
                ErrorView::FrameTooLarge { size: len as usize, max },
                0,
            )
        } else if src.len() < 6 + len {
            Decoded::Incomplete
        } else {
            match inflate(src.subrange(6, 6 + len), max) {
                Ok(inner) => Decoded::Complete(FrameView::Compressed(inner), (6 + len) as nat),
                Err(e) => Decoded::Malformed(e, (6 + len) as nat),
            }
        }
    }
}

/// Whether `r` and the buffer `after` are what decoding gives where the front of
/// the buffer `before` is `d`.
pub open spec fn is_decoded(
    d: Decoded,
    before: Seq<u8>,
    after: Seq<u8>,
    r: Result<Option<Frame>, Error>,
) -> bool {
    match d {
        Decoded::Incomplete => r == Ok::<Option<Frame>, Error>(None) && after == before,
        Decoded::Complete(frame, n) => {
            &&& r matches Ok(Some(f)) && f@ == frame
            &&& after == before.skip(n as int)
        },
        Decoded::Malformed(error, n) => {
            &&& r matches Err(e) && e@ == error
            &&& after == before.skip(n as int)
        },
    }
}

fn length_field_of(len: usize) -> (n: u32)
    ensures
        n == length_field(len as nat),
{
    (len as u64 % 0x1_0000_0000) as u32
}

/// Appends the compressed frame that carries `deflated` to `dst`.
pub fn encode_compressed(deflated: &[u8], dst: &mut BytesMut)
    requires
        buffer_contents(*old(dst)).len() + 6 + deflated@.len() <= isize::MAX,
    ensures
        buffer_contents(*final(dst)) == buffer_contents(*old(dst))
            + compressed_wire(deflated@),
{
    let ghost before = buffer_contents(*dst);
    put_u8(dst, PROTOCOL_VERSION);
    put_u8(dst, TYPE_COMPRESSED);
    put_u32(dst, length_field_of(deflated.len()));
    dst.extend_from_slice(deflated);
    assert(buffer_contents(*dst) =~= before + compressed_wire(deflated@));
}

impl Frame {
    /// Appends the frame to `dst`.
    ///
    /// The length field of a payload of 4 GiB or more holds the low 32 bits of its
    /// length, as [`length_field`] says: such a frame does not decode to itself.
    pub fn encode(&self, dst: &mut BytesMut)
        requires
            buffer_contents(*old(dst)).len() + wire(self@).len() <= isize::MAX,
        ensures
            buffer_contents(*final(dst)) == buffer_contents(*old(dst))
                + wire(self@),
            reads_back(self@),
    {
        let ghost before = buffer_contents(*dst);
        match self {
            Frame::Window(n) => {
                put_u8(dst, PROTOCOL_VERSION);
                put_u8(dst, TYPE_WINDOW);
                put_u32(dst, *n);
            },
            Frame::Json { seq, data } => {
                let payload: &[u8] = bytes_slice(data);
                put_u8(dst, PROTOCOL_VERSION);
                put_u8(dst, TYPE_JSON);
                put_u32(dst, *seq);
                put_u32(dst, length_field_of(payload.len()));
                dst.extend_from_slice(payload);
            },
            Frame::Ack(seq) => {
                put_u8(dst, PROTOCOL_VERSION);
                put_u8(dst, TYPE_ACK);
                put_u32(dst, *seq);
            },
            Frame::Compressed(inner) => {
                let deflated: Vec<u8> = zlib_compress(bytes_slice(inner));
                encode_compressed(deflated.as_slice(), dst);
            },
        }
        assert(buffer_contents(*dst) =~= before + wire(self@));
        proof {
            lemma_reads_back(self@);
        }
    }

    /// Takes the frame at the front of `src` off it, under the default limit.
    pub fn decode(src: &mut BytesMut) -> (r: Result<Option<Frame>, Error>)
        ensures
            is_decoded(
                decoded(buffer_contents(*old(src)), DEFAULT_MAX_FRAME_SIZE),
                buffer_contents(*old(src)),
                buffer_contents(*final(src)),
                r,
            ),
    {
        Self::decode_with_limit(src, DEFAULT_MAX_FRAME_SIZE)
    }

    /// Takes the frame at the front of `src` off it. `Ok(None)` asks for more bytes,
    /// and leaves `src` as it is.
    pub fn decode_with_limit(src: &mut BytesMut, max_frame_size: usize) -> (r: Result<
        Option<Frame>,
        Error,
    >)
        ensures
            is_decoded(
                decoded(buffer_contents(*old(src)), max_frame_size),
                buffer_contents(*old(src)),
                buffer_contents(*final(src)),
                r,
            ),
    {
        let ghost before = buffer_contents(*src);
        assert(before.skip(0) =~= before);
        let front: &[u8] = buffer_slice(src);
        let have: usize = front.len();
        if have < 2 {
            return Ok(None);
        }
        if front[0] != PROTOCOL_VERSION {
            return Err(Error::InvalidFrame("unsupported protocol version"));
        }
        let ty: u8 = front[1];
        if ty == TYPE_WINDOW {
            if have < 6 {
                return Ok(None);
            }
            advance(src, 2);
            let n: u32 = get_u32(src);
            assert(before.skip(2).skip(4) =~= before.skip(6));
            Ok(Some(Frame::Window(n)))
        } else if ty == TYPE_JSON {
            if have < 10 {
                return Ok(None);
            }
            let len: usize = be_at(front, 6) as usize;
            if len > max_frame_size {
                return Err(Error::FrameTooLarge { size: len, max: max_frame_size });
            }
            if have - 10 < len {
                return Ok(None);
            }
            advance(src, 2);
            let seq: u32 = get_u32(src);
            let _len: u32 = get_u32(src);
            let data: Bytes = src.split_to(len).freeze();
            assert(before.skip(2).skip(4).skip(4) =~= before.skip(10));
            assert(before.skip(10).take(len as int) =~= before.subrange(10, 10 + len));
            assert(before.skip(10).skip(len as int) =~= before.skip(10 + len));
            Ok(Some(Frame::Json { seq, data }))
        } else if ty == TYPE_ACK {
            if have < 6 {
                return Ok(None);
            }
            advance(src, 2);
            let seq: u32 = get_u32(src);
            assert(before.skip(2).skip(4) =~= before.skip(6));
            Ok(Some(Frame::Ack(seq)))
        } else if ty == TYPE_COMPRESSED {
            if have < 6 {
                return Ok(None);
            }
            let len: usize = be_at(front, 2) as usize;
            if len > max_frame_size {
                return Err(Error::FrameTooLarge { size: len, max: max_frame_size });
            }
            if have - 6 < len {
                return Ok(None);
            }
            advance(src, 6);
            let payload: BytesMut = src.split_to(len);
            assert(before.skip(6).take(len as int) =~= before.subrange(6, 6 + len));
            assert(before.skip(6).skip(len as int) =~= before.skip(6 + len));
            match zlib_decompress(buffer_slice(&payload), max_frame_size) {
                Ok(inner) => Ok(Some(Frame::Compressed(inner))),
                Err(e) => Err(e),
            }
        } else {
            Err(Error::InvalidFrame("unknown frame type"))
        }
    }
}

} // verus!
