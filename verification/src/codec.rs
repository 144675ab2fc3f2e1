//! A codec: frames in, bytes out, and back, under a limit on the size of frames.

use bytes::BytesMut;
use vstd::prelude::*;

use crate::buffer::{buffer_contents, buffer_slice, bytes_slice};
use crate::error::Error;
use crate::frame::{decoded, encode_compressed, is_decoded, wire, Frame, DEFAULT_MAX_FRAME_SIZE};
use crate::laws::{lemma_reads_back, reads_back};
use crate::zlib::{over_limit, zlib_compress};

verus! {

#[derive(Debug)]
pub struct LumberjackCodec {
    pub max_frame_size: usize,
}

impl Clone for LumberjackCodec {
    fn clone(&self) -> (codec: LumberjackCodec)
        ensures
            codec == *self,
    {
        LumberjackCodec { max_frame_size: self.max_frame_size }
    }
}

impl Default for LumberjackCodec {
    fn default() -> (codec: LumberjackCodec)
        ensures
            codec.max_frame_size == DEFAULT_MAX_FRAME_SIZE,
    {
        LumberjackCodec { max_frame_size: DEFAULT_MAX_FRAME_SIZE }
    }
}

/// The error for `size` bytes, too many for any buffer.
fn no_room(size: usize) -> (e: Error)
    ensures
        e@ == over_limit(size as nat, isize::MAX as usize),
{
    Error::FrameTooLarge { size, max: isize::MAX as usize }
}

impl LumberjackCodec {
    pub fn new() -> (codec: LumberjackCodec)
        ensures
            codec.max_frame_size == DEFAULT_MAX_FRAME_SIZE,
    {
        Self::default()
    }

    pub fn with_max_frame_size(max_frame_size: usize) -> (codec: LumberjackCodec)
        ensures
            codec.max_frame_size == max_frame_size,
    {
        LumberjackCodec { max_frame_size }
    }

    /// Takes the frame at the front of `src` off it. `Ok(None)` asks for more bytes,
    /// and leaves `src` as it is.
    pub fn decode(&mut self, src: &mut BytesMut) -> (r: Result<Option<Frame>, Error>)
        ensures
            *final(self) == *old(self),
            is_decoded(
                decoded(
                    buffer_contents(*old(src)),
                    old(self).max_frame_size,
                ),
                buffer_contents(*old(src)),
                buffer_contents(*final(src)),
                r,
            ),
    {
        Frame::decode_with_limit(src, self.max_frame_size)
    }

    /// Appends `item` to `dst`. A frame that would take `dst` over the largest
    /// allocation there is, `isize::MAX` bytes, is refused, and `dst` stays as it is.
    pub fn encode(&mut self, item: Frame, dst: &mut BytesMut) -> (r: Result<(), Error>)
        ensures
            *final(self) == *old(self),
            ({
                let before = buffer_contents(*old(dst));
                let after = buffer_contents(*final(dst));
                let size = before.len() + wire(item@).len();
                if size <= isize::MAX {
                    r is Ok && after == before + wire(item@)
                } else {
                    &&& r matches Err(e) && e@ == over_limit(size, isize::MAX as usize)
                    &&& after == before
                }
            }),
            reads_back(item@),
    {
        let have: usize = buffer_slice(dst).len();
        let most: usize = isize::MAX as usize;
        match &item {
            Frame::Compressed(inner) => {
                let deflated: Vec<u8> = zlib_compress(bytes_slice(inner));
                proof {
                    lemma_reads_back(item@);
                }
                let size: usize = have.saturating_add(6).saturating_add(deflated.len());
                if size > most {
                    return Err(no_room(size));
                }
                encode_compressed(deflated.as_slice(), dst);
            },
            Frame::Json { seq: _, data } => {
                proof {
                    lemma_reads_back(item@);
                }
                let size: usize = have.saturating_add(10).saturating_add(bytes_slice(data).len());
                if size > most {
                    return Err(no_room(size));
                }
                item.encode(dst);
            },
            _ => {
                proof {
                    lemma_reads_back(item@);
                }
                let size: usize = have.saturating_add(6);
                if size > most {
                    return Err(no_room(size));
                }
                item.encode(dst);
            },
        }
        Ok(())
    }
}

} // verus!
