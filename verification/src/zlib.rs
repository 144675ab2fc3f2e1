//! Zlib streams: what the rest of the library relies on of the `flate2` crate,
//! and how much of a stream it is willing to inflate.

use bytes::Bytes;
use flate2::read::ZlibDecoder;
use flate2::write::ZlibEncoder;
use flate2::Compression;
use std::io::{Read, Write};
use vstd::prelude::*;

use crate::buffer::{bytes_contents, bytes_from};
use crate::error::{Error, ErrorView};

verus! {

/// The level at which payloads are compressed.
pub const ZLIB_LEVEL: u32 = 3;

/// What reading a zlib stream gives, 8192 bytes at most at a time: the pieces in
/// order, none of them empty, and the text of the error in which the reading
/// ends, if it does not end with the stream.
pub struct Inflation {
    pub pieces: Seq<Seq<u8>>,
    pub failure: Option<Seq<char>>,
}

#[verifier::external_type_specification]
#[verifier::external_body]
#[verifier::reject_recursive_types(R)]
pub struct ExZlibDecoder<R>(ZlibDecoder<R>);

/// What a `flate2::write::ZlibEncoder` of level `level` makes of `input`.
pub uninterp spec fn zlib_deflated(input: Seq<u8>, level: u32) -> Seq<u8>;

/// What a `flate2::read::ZlibDecoder` makes of `input`.
pub uninterp spec fn zlib_inflated(input: Seq<u8>) -> Inflation;

/// What is still to come out of `decoder`.
pub uninterp spec fn decoder_rest(decoder: ZlibDecoder<&[u8]>) -> Inflation;

/// Whether `deflated` is a whole zlib stream that inflates to `input`.
pub open spec fn inflates_to(deflated: Seq<u8>, input: Seq<u8>) -> bool {
    zlib_inflated(deflated).failure is None && zlib_inflated(deflated).pieces.flatten() == input
}

/// The error for `size` bytes where no more than `max` are accepted. A size that
/// no `usize` holds is reported as the largest one.
pub open spec fn over_limit(size: nat, max: usize) -> ErrorView {
    ErrorView::FrameTooLarge {
        size: if size <= usize::MAX {
            size as usize
        } else {
            usize::MAX
        },
        max,
    }
}

/// How inflating ends, the bytes of `done` already there and `rest` to come, where
/// no more than `max` bytes in all are accepted. The piece that goes over the limit
/// ends it, and the size reported counts that piece.
pub open spec fn inflate_from(done: Seq<u8>, rest: Inflation, max: usize) -> Result<
    Seq<u8>,
    ErrorView,
>
    decreases rest.pieces.len(),
{
    if rest.pieces.len() == 0 {
        match rest.failure {
            Some(text) => Err(ErrorView::Compression(text)),
            None => Ok(done),
        }
    } else {
        let size = done.len() + rest.pieces[0].len();
        if size > max {
            Err(over_limit(size, max))
        } else {
            inflate_from(
                done + rest.pieces[0],
                Inflation { pieces: rest.pieces.drop_first(), failure: rest.failure },
                max,
            )
        }
    }
}

/// How inflating `input` ends, where no more than `max` bytes are accepted.
pub open spec fn inflate(input: Seq<u8>, max: usize) -> Result<Seq<u8>, ErrorView> {
    inflate_from(Seq::empty(), zlib_inflated(input), max)
}

/// A `flate2::write::ZlibEncoder` over a vector, given `input` and finished. The
/// result depends on the input and the level alone, and reading it back gives the
/// input. Levels go from 0 to 9. Neither writing nor finishing fails on a vector.
#[verifier::external_body]
fn deflate(input: &[u8], level: u32) -> (deflated: Vec<u8>)
    requires
        level <= 9,
    ensures
        deflated@ == zlib_deflated(input@, level),
        inflates_to(deflated@, input@),
{
    let mut encoder = ZlibEncoder::new(Vec::new(), Compression::new(level));
    encoder.write_all(input).expect("writing to a vector does not fail");
    encoder.finish().expect("finishing on a vector does not fail")
}

/// `flate2::read::ZlibDecoder::new` over a slice: everything is still to come.
#[verifier::external_body]
fn decoder(input: &[u8]) -> (d: ZlibDecoder<&[u8]>)
    ensures
        decoder_rest(d) == zlib_inflated(input@),
{
    ZlibDecoder::new(input)
}

/// `Read::read` on a `ZlibDecoder`: the next piece goes to the front of `chunk`,
/// and its length is returned. The length is 0 only at the end of the stream. A
/// stream that is corrupt, or cut short, ends in an error, which is given by its
/// text.
#[verifier::external_body]
fn read_piece(d: &mut ZlibDecoder<&[u8]>, chunk: &mut [u8; 8192]) -> (r: Result<usize, String>)
    ensures
        match r {
            Ok(n) => {
                let before = decoder_rest(*old(d));
                if n == 0 {
                    before.pieces.len() == 0 && before.failure is None
                } else {
                    &&& n <= 8192
                    &&& before.pieces.len() > 0
                    &&& before.pieces[0] == final(chunk)@.take(n as int)
                    &&& decoder_rest(*final(d)) == (Inflation {
                        pieces: before.pieces.drop_first(),
                        failure: before.failure,
                    })
                }
            },
            Err(text) => {
                &&& decoder_rest(*old(d)).pieces.len() == 0
                &&& decoder_rest(*old(d)).failure == Some(text@)
            },
        },
{
    d.read(chunk).map_err(|e| e.to_string())
}

/// Compresses `input`. Inflating the result gives the input back.
pub fn zlib_compress(input: &[u8]) -> (deflated: Vec<u8>)
    ensures
        deflated@ == zlib_deflated(input@, ZLIB_LEVEL),
        inflates_to(deflated@, input@),
{
    deflate(input, ZLIB_LEVEL)
}

/// Appends `piece` to `out`, unless that takes it over `max` bytes.
pub fn accept_piece(out: &mut Vec<u8>, piece: &[u8], max: usize) -> (r: Result<(), Error>)
    requires
        old(out)@.len() <= max,
    ensures
        if old(out)@.len() + piece@.len() <= max {
            r is Ok && final(out)@ == old(out)@ + piece@
        } else {
            &&& r matches Err(err) && err@ == over_limit(old(out)@.len() + piece@.len(), max)
            &&& final(out)@ == old(out)@
        },
{
    if piece.len() > max - out.len() {
        return Err(Error::FrameTooLarge { size: out.len().saturating_add(piece.len()), max });
    }
    let ghost done = out@;
    out.extend_from_slice(piece);
    assert(out@ =~= done + piece@);
    Ok(())
}

/// Inflates `input`, up to `max` bytes: a stream that holds more is given up as
/// soon as it has gone over.
pub fn zlib_decompress(input: &[u8], max: usize) -> (r: Result<Bytes, Error>)
    ensures
        match inflate(input@, max) {
            Ok(data) => r matches Ok(b) && bytes_contents(b) == data,
            Err(e) => r matches Err(err) && err@ == e,
        },
{
    let mut d = decoder(input);
    let mut out: Vec<u8> = Vec::new();
    let mut chunk: [u8; 8192] = [0u8; 8192];
    loop
        invariant
            inflate(input@, max) == inflate_from(out@, decoder_rest(d), max),
            out@.len() <= max,
        decreases decoder_rest(d).pieces.len(),
    {
        let n: usize = match read_piece(&mut d, &mut chunk) {
            Ok(n) => n,
            Err(text) => {
                return Err(Error::Compression(text));
            },
        };
        if n == 0 {
            return Ok(bytes_from(out));
        }
        let piece: &[u8] = vstd::slice::slice_subrange(chunk.as_slice(), 0, n);
        assert(piece@ =~= chunk@.take(n as int));
        match accept_piece(&mut out, piece, max) {
            Ok(()) => {},
            Err(e) => {
                return Err(e);
            },
        }
    }
}

} // verus!
