//! What holds of frames on the wire, whatever the frames are.

use vstd::prelude::*;

use crate::buffer::{be_bytes, be_value, lemma_be_round_trip};
use crate::error::{Error, ErrorView};
use crate::frame::{compressed_wire, decoded, is_decoded, lemma_wire_all_push, length_field};
use crate::frame::{wire, wire_all, Decoded, Frame, FrameView};
use crate::frame::{PROTOCOL_VERSION, TYPE_ACK, TYPE_COMPRESSED, TYPE_JSON, TYPE_WINDOW};
use crate::zlib::{inflate, inflate_from, inflates_to, over_limit, zlib_deflated};
use crate::zlib::{zlib_inflated, Inflation, ZLIB_LEVEL};

verus! {

/// Whether no payload of `frame`, inflated or not, exceeds `max` bytes, or what a
/// length field can hold.
pub open spec fn within(frame: FrameView, max: usize) -> bool {
    match frame {
        FrameView::Json { data, .. } => data.len() <= max && data.len() <= u32::MAX,
        FrameView::Compressed(inner) => {
            let deflated = zlib_deflated(inner, ZLIB_LEVEL);
            inner.len() <= max && deflated.len() <= max && deflated.len() <= u32::MAX
        },
        _ => true,
    }
}

/// Whether `frame`, put on the wire, is read back from it, whatever follows and
/// under every limit that it keeps.
pub open spec fn reads_back(frame: FrameView) -> bool {
    forall|rest: Seq<u8>, max: usize|
        within(frame, max) ==> #[trigger] decoded(
            wire(frame) + rest,
            max,
        ) == Decoded::Complete(frame, wire(frame).len())
}

proof fn lemma_inflate_from(done: Seq<u8>, rest: Inflation, max: usize)
    requires
        rest.failure is None,
        done.len() + rest.pieces.flatten().len() <= max,
    ensures
        inflate_from(done, rest, max) == Ok::<Seq<u8>, ErrorView>(
            done + rest.pieces.flatten(),
        ),
    decreases rest.pieces.len(),
{
    if rest.pieces.len() > 0 {
        let tail = Inflation { pieces: rest.pieces.drop_first(), failure: rest.failure };
        assert(rest.pieces.flatten() == rest.pieces[0] + tail.pieces.flatten());
        lemma_inflate_from(done + rest.pieces[0], tail, max);
        assert(done + rest.pieces[0] + tail.pieces.flatten() =~= done + rest.pieces.flatten());
    } else {
        assert(done + rest.pieces.flatten() =~= done);
    }
}

/// A zlib stream that holds `input` inflates to it, under every limit that `input`
/// keeps.
pub proof fn law_inflate(deflated: Seq<u8>, input: Seq<u8>, max: usize)
    requires
        inflates_to(deflated, input),
        input.len() <= max,
    ensures
        inflate(deflated, max) == Ok::<Seq<u8>, ErrorView>(input),
{
    lemma_inflate_from(Seq::empty(), zlib_inflated(deflated), max);
    assert(Seq::<u8>::empty() + input =~= input);
}

proof fn lemma_inflate_over(done: Seq<u8>, rest: Inflation, max: usize)
    requires
        rest.failure is None,
        done.len() <= max < done.len() + rest.pieces.flatten().len(),
    ensures
        exists|size: nat|
            {
                &&& inflate_from(done, rest, max) == Err::<Seq<u8>, ErrorView>(
                    #[trigger] over_limit(size, max),
                )
                &&& max < size <= done.len() + rest.pieces.flatten().len()
            },
    decreases rest.pieces.len(),
{
    if rest.pieces.len() > 0 {
        let tail = Inflation { pieces: rest.pieces.drop_first(), failure: rest.failure };
        let size = done.len() + rest.pieces[0].len();
        assert(rest.pieces.flatten() == rest.pieces[0] + tail.pieces.flatten());
        if size > max {
            assert(inflate_from(done, rest, max) == Err::<Seq<u8>, ErrorView>(
                over_limit(size, max),
            ));
        } else {
            lemma_inflate_over(done + rest.pieces[0], tail, max);
        }
    }
}

/// A zlib stream that holds more than the limit allows is refused as too large. The
/// size that is reported is over the limit, and no more than the stream holds.
pub proof fn law_inflate_over(deflated: Seq<u8>, input: Seq<u8>, max: usize)
    requires
        inflates_to(deflated, input),
        input.len() > max,
        max < usize::MAX,
    ensures
        inflate(deflated, max) matches Err(ErrorView::FrameTooLarge { size, max: limit })
            && limit == max && max < size <= input.len(),
{
    lemma_inflate_over(Seq::empty(), zlib_inflated(deflated), max);
}

proof fn lemma_round_trip_number(ty: u8, n: u32, rest: Seq<u8>)
    ensures
        ({
            let src = seq![PROTOCOL_VERSION, ty] + be_bytes(n) + rest;
            &&& src.len() == 6 + rest.len()
            &&& src[0] == PROTOCOL_VERSION
            &&& src[1] == ty
            &&& be_value(src.skip(2)) == n
        }),
{
    let src = seq![PROTOCOL_VERSION, ty] + be_bytes(n) + rest;
    assert(src.skip(2) =~= be_bytes(n) + rest);
    lemma_be_round_trip(n, rest);
}

proof fn lemma_round_trip_window(n: u32, rest: Seq<u8>, max: usize)
    ensures
        decoded(wire(FrameView::Window(n)) + rest, max) == Decoded::Complete(
            FrameView::Window(n),
            wire(FrameView::Window(n)).len(),
        ),
{
    lemma_round_trip_number(TYPE_WINDOW, n, rest);
}

proof fn lemma_round_trip_ack(seq: u32, rest: Seq<u8>, max: usize)
    ensures
        decoded(wire(FrameView::Ack(seq)) + rest, max) == Decoded::Complete(
            FrameView::Ack(seq),
            wire(FrameView::Ack(seq)).len(),
        ),
{
    lemma_round_trip_number(TYPE_ACK, seq, rest);
}

proof fn lemma_round_trip_json(seq: u32, data: Seq<u8>, rest: Seq<u8>, max: usize)
    requires
        within(FrameView::Json { seq, data }, max),
    ensures
        decoded(
            wire(FrameView::Json { seq, data }) + rest,
            max,
        ) == Decoded::Complete(
            FrameView::Json { seq, data },
            wire(FrameView::Json { seq, data }).len(),
        ),
{
    let bytes = wire(FrameView::Json { seq, data });
    let len = length_field(data.len());
    let tail = be_bytes(len) + (data + rest);
    lemma_round_trip_number(TYPE_JSON, seq, tail);
    assert(bytes + rest =~= seq![PROTOCOL_VERSION, TYPE_JSON]
        + be_bytes(seq) + tail);
    assert((bytes + rest).skip(6) =~= tail);
    lemma_be_round_trip(len, data + rest);
    assert((bytes + rest).subrange(10, 10 + len) =~= data);
}

proof fn lemma_round_trip_compressed(inner: Seq<u8>, rest: Seq<u8>, max: usize)
    requires
        within(FrameView::Compressed(inner), max),
        inflates_to(zlib_deflated(inner, ZLIB_LEVEL), inner),
    ensures
        decoded(
            wire(FrameView::Compressed(inner)) + rest,
            max,
        ) == Decoded::Complete(
            FrameView::Compressed(inner),
            wire(FrameView::Compressed(inner)).len(),
        ),
{
    let deflated = zlib_deflated(inner, ZLIB_LEVEL);
    let bytes = compressed_wire(deflated);
    let len = length_field(deflated.len());
    lemma_round_trip_number(TYPE_COMPRESSED, len, deflated + rest);
    assert(bytes + rest =~= seq![PROTOCOL_VERSION, TYPE_COMPRESSED]
        + be_bytes(len) + (deflated + rest));
    assert((bytes + rest).subrange(6, 6 + len) =~= deflated);
    law_inflate(deflated, inner, max);
}

/// What is read is what was written: a frame put on the wire is read back, and
/// takes up exactly the bytes written, whatever follows them.
pub proof fn law_round_trip(frame: FrameView, rest: Seq<u8>, max: usize)
    requires
        within(frame, max),
        frame matches FrameView::Compressed(inner) ==> inflates_to(
            zlib_deflated(inner, ZLIB_LEVEL),
            inner,
        ),
    ensures
        decoded(wire(frame) + rest, max) == Decoded::Complete(
            frame,
            wire(frame).len(),
        ),
{
    match frame {
        FrameView::Window(n) => {
            lemma_round_trip_window(n, rest, max);
        },
        FrameView::Ack(seq) => {
            lemma_round_trip_ack(seq, rest, max);
        },
        FrameView::Json { seq, data } => {
            lemma_round_trip_json(seq, data, rest, max);
        },
        FrameView::Compressed(inner) => {
            lemma_round_trip_compressed(inner, rest, max);
        },
    }
}

pub(crate) proof fn lemma_reads_back(frame: FrameView)
    requires
        frame matches FrameView::Compressed(inner) ==> inflates_to(
            zlib_deflated(inner, ZLIB_LEVEL),
            inner,
        ),
    ensures
        reads_back(frame),
{
    assert forall|rest: Seq<u8>, max: usize| within(frame, max) implies #[trigger]
        decoded(wire(frame) + rest, max) == Decoded::Complete(
        frame,
        wire(frame).len(),
    ) by {
        law_round_trip(frame, rest, max);
    }
}

proof fn lemma_inflate_bound(done: Seq<u8>, rest: Inflation, max: usize)
    requires
        done.len() <= max,
    ensures
        inflate_from(done, rest, max) matches Ok(data) ==> data.len() <= max,
    decreases rest.pieces.len(),
{
    if rest.pieces.len() > 0 && done.len() + rest.pieces[0].len() <= max {
        let tail = Inflation { pieces: rest.pieces.drop_first(), failure: rest.failure };
        lemma_inflate_bound(done + rest.pieces[0], tail, max);
    }
}

/// No payload over the limit gets through, neither as it stands on the wire nor
/// inflated.
pub proof fn law_limit(src: Seq<u8>, max: usize)
    ensures
        match decoded(src, max) {
            Decoded::Complete(FrameView::Json { data, .. }, _) => data.len() <= max,
            Decoded::Complete(FrameView::Compressed(inner), _) => inner.len() <= max,
            _ => true,
        },
{
    if src.len() >= 6 && be_value(src.skip(2)) <= max {
        let len = be_value(src.skip(2));
        lemma_inflate_bound(Seq::empty(), zlib_inflated(src.subrange(6, 6 + len)), max);
    }
}

/// A frame takes up at least six bytes, all of them there; of what is no frame, no
/// more is dropped than there is.
pub proof fn law_progress(src: Seq<u8>, max: usize)
    ensures
        match decoded(src, max) {
            Decoded::Incomplete => true,
            Decoded::Complete(_, n) => 6 <= n <= src.len(),
            Decoded::Malformed(_, n) => n <= src.len(),
        },
{
}

proof fn lemma_inflate_error(done: Seq<u8>, rest: Inflation, max: usize)
    ensures
        inflate_from(done, rest, max) matches Err(e) ==> e is FrameTooLarge || e is Compression,
    decreases rest.pieces.len(),
{
    if rest.pieces.len() > 0 && done.len() + rest.pieces[0].len() <= max {
        let tail = Inflation { pieces: rest.pieces.drop_first(), failure: rest.failure };
        lemma_inflate_error(done + rest.pieces[0], tail, max);
    }
}

/// What is no frame is refused in one of three ways: it is not of this protocol, it
/// is too large, or its payload does not inflate.
pub proof fn law_malformed(src: Seq<u8>, max: usize)
    ensures
        decoded(src, max) matches Decoded::Malformed(e, _) ==> e is InvalidFrame || e
            is FrameTooLarge || e is Compression,
{
    if src.len() >= 6 {
        let len = be_value(src.skip(2));
        lemma_inflate_error(Seq::empty(), zlib_inflated(src.subrange(6, 6 + len)), max);
    }
}

/// Bytes that arrive later do not change what is at the front of a stream, once
/// that is settled.
pub proof fn law_settled(src: Seq<u8>, more: Seq<u8>, max: usize)
    requires
        decoded(src, max) !is Incomplete,
    ensures
        decoded(src + more, max) == decoded(src, max),
{
    let longer = src + more;
    assert(longer[0] == src[0] && longer[1] == src[1]);
    if src.len() >= 6 {
        assert(be_value(longer.skip(2)) == be_value(src.skip(2)));
        let len = be_value(src.skip(2));
        if src.len() >= 6 + len {
            assert(longer.subrange(6, 6 + len) =~= src.subrange(6, 6 + len));
        }
    }
    if src.len() >= 10 {
        assert(be_value(longer.skip(6)) == be_value(src.skip(6)));
        let len = be_value(src.skip(6));
        if src.len() >= 10 + len {
            assert(longer.subrange(10, 10 + len) =~= src.subrange(10, 10 + len));
        }
    }
}

/// As long as the end of a frame has not arrived, more bytes are asked for.
pub proof fn law_partial(frame: FrameView, k: int, max: usize)
    requires
        within(frame, max),
        0 <= k < wire(frame).len(),
    ensures
        decoded(wire(frame).take(k), max) is Incomplete,
{
    let bytes = wire(frame);
    let part = bytes.take(k);
    if k >= 2 {
        assert(part[0] == bytes[0] && part[1] == bytes[1]);
        match frame {
            FrameView::Json { seq, data } => {
                let len = length_field(data.len());
                if k >= 10 {
                    assert(bytes.skip(6) =~= be_bytes(len) + data);
                    lemma_be_round_trip(len, data);
                    assert(be_value(part.skip(6)) == be_value(bytes.skip(6)));
                }
            },
            FrameView::Compressed(inner) => {
                let deflated = zlib_deflated(inner, ZLIB_LEVEL);
                let len = length_field(deflated.len());
                if k >= 6 {
                    assert(bytes.skip(2) =~= be_bytes(len) + deflated);
                    lemma_be_round_trip(len, deflated);
                    assert(be_value(part.skip(2)) == be_value(bytes.skip(2)));
                }
            },
            _ => {},
        }
    }
}

/// The frames at the front of `src`, up to the first place where there is none.
pub open spec fn decoded_all(src: Seq<u8>, max: usize) -> Seq<FrameView>
    decreases src.len(),
{
    match decoded(src, max) {
        Decoded::Complete(frame, n) => if 0 < n <= src.len() {
            seq![frame] + decoded_all(src.skip(n as int), max)
        } else {
            seq![frame]
        },
        _ => Seq::empty(),
    }
}

/// Frames written one after the other are read in the same order, each once, even
/// where the beginning of another one follows them.
pub proof fn law_back_to_back(frames: Seq<FrameView>, rest: Seq<u8>, max: usize)
    requires
        forall|i: int|
            0 <= i < frames.len() ==> within(#[trigger] frames[i], max) && reads_back(frames[i]),
        decoded(rest, max) is Incomplete,
    ensures
        decoded_all(wire_all(frames) + rest, max) == frames,
    decreases frames.len(),
{
    if frames.len() == 0 {
        assert(wire_all(frames) + rest =~= rest);
    } else {
        let tail = frames.drop_first();
        let following = wire_all(tail) + rest;
        let src = wire_all(frames) + rest;
        assert(src =~= wire(frames[0]) + following);
        assert(decoded(wire(frames[0]) + following, max) == Decoded::Complete(
            frames[0],
            wire(frames[0]).len(),
        ));
        assert(src.skip(wire(frames[0]).len() as int) =~= following);
        assert forall|i: int| 0 <= i < tail.len() implies within(#[trigger] tail[i], max)
            && reads_back(tail[i]) by {
            assert(tail[i] == frames[i + 1]);
        }
        law_back_to_back(tail, rest, max);
        assert(seq![frames[0]] + tail =~= frames);
    }
}

/// What is left of `src` after the frames at its front.
pub open spec fn decoded_rest(src: Seq<u8>, max: usize) -> Seq<u8>
    decreases src.len(),
{
    match decoded(src, max) {
        Decoded::Complete(_, n) => if 0 < n <= src.len() {
            decoded_rest(src.skip(n as int), max)
        } else {
            src
        },
        _ => src,
    }
}

/// It makes no difference in what portions a stream arrives: frames that are read
/// before the rest is there are the same, and so are those after them.
pub proof fn law_portions(src: Seq<u8>, more: Seq<u8>, max: usize)
    ensures
        decoded_all(src + more, max) == decoded_all(src, max) + decoded_all(
            decoded_rest(src, max) + more,
            max,
        ),
        decoded_rest(src + more, max) == decoded_rest(decoded_rest(src, max) + more, max),
    decreases src.len(),
{
    law_progress(src, max);
    match decoded(src, max) {
        Decoded::Complete(frame, n) => {
            law_settled(src, more, max);
            let tail = src.skip(n as int);
            assert((src + more).skip(n as int) =~= tail + more);
            law_portions(tail, more, max);
            let later = decoded_all(decoded_rest(tail, max) + more, max);
            assert(seq![frame] + (decoded_all(tail, max) + later) =~= seq![frame] + decoded_all(
                tail,
                max,
            ) + later);
        },
        _ => {
            let later = decoded_all(src + more, max);
            assert(Seq::<FrameView>::empty() + later =~= later);
        },
    }
}

/// The number that four bytes are, the most significant one first.
pub open spec fn four(a: u8, b: u8, c: u8, d: u8) -> int {
    a * 0x100_0000 + b * 0x1_0000 + c * 0x100 + d
}

/// What a frame is on the wire: the character 2, a letter for its type, and its
/// numbers and bytes, in order. Of a length, the low 32 bits are there.
pub proof fn law_format(n: u32, data: Seq<u8>)
    ensures
        ({
            let w = wire(FrameView::Window(n));
            let a = wire(FrameView::Ack(n));
            let j = wire(FrameView::Json { seq: n, data });
            let c = wire(FrameView::Compressed(data));
            let z = zlib_deflated(data, 3);
            &&& w.len() == 6 && w[0] == 0x32 && w[1] == 0x57 && four(w[2], w[3], w[4], w[5]) == n
            &&& a.len() == 6 && a[0] == 0x32 && a[1] == 0x41 && four(a[2], a[3], a[4], a[5]) == n
            &&& j.len() == 10 + data.len() && j[0] == 0x32 && j[1] == 0x4a
            &&& four(j[2], j[3], j[4], j[5]) == n
            &&& four(j[6], j[7], j[8], j[9]) == data.len() % 0x1_0000_0000
            &&& j.skip(10) == data
            &&& c.len() == 6 + z.len() && c[0] == 0x32 && c[1] == 0x43
            &&& four(c[2], c[3], c[4], c[5]) == z.len() % 0x1_0000_0000
            &&& c.skip(6) == z
        }),
{
    lemma_format_number(TYPE_WINDOW, n, Seq::empty());
    lemma_format_number(TYPE_ACK, n, Seq::empty());
    let len = length_field(data.len());
    lemma_format_number(TYPE_JSON, n, be_bytes(len) + data);
    let j = wire(FrameView::Json { seq: n, data });
    assert(j =~= seq![PROTOCOL_VERSION, TYPE_JSON] + be_bytes(n) + (be_bytes(len) + data));
    assert(j.skip(6) =~= be_bytes(len) + data);
    lemma_be_round_trip(len, data);
    assert(j.skip(10) =~= data);
    let z = zlib_deflated(data, 3);
    let c = wire(FrameView::Compressed(data));
    lemma_format_number(TYPE_COMPRESSED, length_field(z.len()), z);
    assert(c.skip(6) =~= z);
    let w = wire(FrameView::Window(n));
    let a = wire(FrameView::Ack(n));
    assert(w =~= w + Seq::<u8>::empty());
    assert(a =~= a + Seq::<u8>::empty());
}

/// A compressed frame carries the zlib stream that it is given as it is, behind its
/// length, whoever made the stream.
pub proof fn law_format_compressed(z: Seq<u8>)
    ensures
        ({
            let c = compressed_wire(z);
            &&& c.len() == 6 + z.len() && c[0] == 0x32 && c[1] == 0x43
            &&& four(c[2], c[3], c[4], c[5]) == z.len() % 0x1_0000_0000
            &&& c.skip(6) == z
        }),
{
    lemma_format_number(TYPE_COMPRESSED, length_field(z.len()), z);
    assert(compressed_wire(z).skip(6) =~= z);
}

proof fn lemma_format_number(ty: u8, n: u32, rest: Seq<u8>)
    ensures
        ({
            let s = seq![PROTOCOL_VERSION, ty] + be_bytes(n) + rest;
            &&& s.len() == 6 + rest.len()
            &&& s[0] == PROTOCOL_VERSION && s[1] == ty
            &&& four(s[2], s[3], s[4], s[5]) == n
        }),
{
}

/// A window and an acknowledgement are read from any bytes that have their form,
/// whoever wrote them and whatever follows.
pub proof fn law_reads_number(a: u8, b: u8, c: u8, d: u8, rest: Seq<u8>, max: usize)
    ensures
        ({
            let n = four(a, b, c, d) as u32;
            &&& n == four(a, b, c, d)
            &&& decoded(seq![0x32u8, 0x57, a, b, c, d] + rest, max) == Decoded::Complete(
                FrameView::Window(n),
                6,
            )
            &&& decoded(seq![0x32u8, 0x41, a, b, c, d] + rest, max) == Decoded::Complete(
                FrameView::Ack(n),
                6,
            )
        }),
{
    let w = seq![0x32u8, 0x57, a, b, c, d] + rest;
    let k = seq![0x32u8, 0x41, a, b, c, d] + rest;
    assert(be_value(w.skip(2)) == four(a, b, c, d));
    assert(be_value(k.skip(2)) == four(a, b, c, d));
}

/// A `J` frame is read from any bytes that have its form, whoever wrote them: its
/// number, and its payload as it stands. One that announces more than the limit is
/// refused before its payload is looked at, and nothing is dropped.
pub proof fn law_reads_json(head: Seq<u8>, data: Seq<u8>, rest: Seq<u8>, max: usize)
    requires
        head.len() == 10,
        head[0] == 0x32,
        head[1] == 0x4a,
    ensures
        ({
            let seq = four(head[2], head[3], head[4], head[5]) as u32;
            let len = four(head[6], head[7], head[8], head[9]);
            &&& seq == four(head[2], head[3], head[4], head[5])
            &&& len > max ==> decoded(head + rest, max) == Decoded::Malformed(
                ErrorView::FrameTooLarge { size: len as usize, max },
                0,
            )
            &&& len == data.len() && len <= max ==> decoded(head + data + rest, max)
                == Decoded::Complete(FrameView::Json { seq, data }, 10 + data.len())
            &&& rest.len() < len <= max ==> decoded(head + rest, max) is Incomplete
        }),
{
    let whole = head + data + rest;
    let part = head + rest;
    assert(be_value(whole.skip(2)) == four(head[2], head[3], head[4], head[5]));
    assert(be_value(whole.skip(6)) == four(head[6], head[7], head[8], head[9]));
    assert(be_value(part.skip(6)) == four(head[6], head[7], head[8], head[9]));
    assert(whole.subrange(10, 10 + data.len() as int) =~= data);
}

/// A compressed frame is read from any zlib stream `z`, whoever compressed it and at
/// whatever level: what comes out is what `z` inflates to. Where inflating fails, the
/// frame fails with it, and is dropped whole. One that announces more than the limit
/// is refused before its payload is looked at, and nothing is dropped.
pub proof fn law_reads_compressed(
    head: Seq<u8>,
    z: Seq<u8>,
    inner: Seq<u8>,
    rest: Seq<u8>,
    max: usize,
)
    requires
        head.len() == 6,
        head[0] == 0x32,
        head[1] == 0x43,
    ensures
        ({
            let len = four(head[2], head[3], head[4], head[5]);
            let all = zlib_inflated(z);
            &&& len > max ==> decoded(head + rest, max) == Decoded::Malformed(
                ErrorView::FrameTooLarge { size: len as usize, max },
                0,
            )
            &&& rest.len() < len <= max ==> decoded(head + rest, max) is Incomplete
            &&& len == z.len() && len <= max && all.failure is None && all.pieces.flatten()
                == inner && inner.len() <= max ==> decoded(head + z + rest, max)
                == Decoded::Complete(FrameView::Compressed(inner), 6 + z.len())
            &&& len == z.len() && len <= max ==> match inflate(z, max) {
                Ok(out) => decoded(head + z + rest, max) == Decoded::Complete(
                    FrameView::Compressed(out),
                    6 + z.len(),
                ),
                Err(e) => decoded(head + z + rest, max) == Decoded::Malformed(e, 6 + z.len()),
            }
        }),
{
    let whole = head + z + rest;
    let part = head + rest;
    assert(be_value(whole.skip(2)) == four(head[2], head[3], head[4], head[5]));
    assert(be_value(part.skip(2)) == four(head[2], head[3], head[4], head[5]));
    assert(whole.subrange(6, 6 + z.len() as int) =~= z);
    if inflates_to(z, inner) && inner.len() <= max {
        law_inflate(z, inner, max);
    }
}

/// What does not begin with the character 2 and one of the four letters is no frame,
/// and what is too short to tell is not yet one. Neither drops a byte.
pub proof fn law_reads_no_other(src: Seq<u8>, max: usize)
    ensures
        src.len() < 2 ==> decoded(src, max) is Incomplete,
        src.len() >= 2 && src[0] != 0x32 ==> decoded(src, max) == Decoded::Malformed(
            ErrorView::InvalidFrame("unsupported protocol version"@),
            0,
        ),
        src.len() >= 2 && src[0] == 0x32 && src[1] != 0x57 && src[1] != 0x4a && src[1] != 0x43
            && src[1] != 0x41 ==> decoded(src, max) == Decoded::Malformed(
            ErrorView::InvalidFrame("unknown frame type"@),
            0,
        ),
        2 <= src.len() < 6 && src[0] == 0x32 && (src[1] == 0x57 || src[1] == 0x4a || src[1] == 0x43
            || src[1] == 0x41) ==> decoded(src, max) is Incomplete,
        2 <= src.len() < 10 && src[0] == 0x32 && src[1] == 0x4a ==> decoded(src, max)
            is Incomplete,
{
}

/// What decoding does to a buffer and returns: a frame comes out and its bytes are
/// gone; bytes that are no frame come out as an error; a frame whose end has not
/// arrived leaves everything as it was.
pub proof fn law_decoding(
    frame: FrameView,
    error: ErrorView,
    n: nat,
    before: Seq<u8>,
    after: Seq<u8>,
    r: Result<Option<Frame>, Error>,
)
    ensures
        is_decoded(Decoded::Incomplete, before, after, r) <==> (r matches Ok(None) && after
            == before),
        is_decoded(Decoded::Complete(frame, n), before, after, r) <==> (r matches Ok(Some(f))
            && f@ == frame && after == before.skip(n as int)),
        is_decoded(Decoded::Malformed(error, n), before, after, r) <==> (r matches Err(e) && e@
            == error && after == before.skip(n as int)),
{
}

/// That a frame reads back means just that: whatever follows it, and under every limit
/// that its payload keeps, deflated and not.
pub proof fn law_reads_back(frame: FrameView, rest: Seq<u8>, max: usize)
    requires
        reads_back(frame),
        match frame {
            FrameView::Json { data, .. } => data.len() <= max && data.len() <= u32::MAX,
            FrameView::Compressed(inner) => inner.len() <= max && zlib_deflated(inner, 3).len()
                <= max && zlib_deflated(inner, 3).len() <= u32::MAX,
            _ => true,
        },
    ensures
        decoded(wire(frame) + rest, max) == Decoded::Complete(frame, wire(frame).len()),
{
}

/// Frames go out one after the other, with nothing between them.
pub proof fn law_wire_all(a: Seq<FrameView>, b: Seq<FrameView>, frame: FrameView)
    ensures
        wire_all(Seq::empty()) == Seq::<u8>::empty(),
        wire_all(seq![frame]) == wire(frame),
        wire_all(a + b) == wire_all(a) + wire_all(b),
    decreases b.len(),
{
    lemma_wire_all_push(Seq::empty(), frame);
    assert(Seq::empty().push(frame) =~= seq![frame]);
    assert(Seq::<u8>::empty() + wire(frame) =~= wire(frame));
    if b.len() == 0 {
        assert(a + b =~= a);
        assert(wire_all(a) + wire_all(b) =~= wire_all(a));
    } else {
        let shorter = b.drop_last();
        law_wire_all(a, shorter, frame);
        lemma_wire_all_push(a + shorter, b.last());
        lemma_wire_all_push(shorter, b.last());
        assert((a + shorter).push(b.last()) =~= a + b);
        assert(shorter.push(b.last()) =~= b);
        assert(wire_all(a) + wire_all(shorter) + wire(b.last()) =~= wire_all(a) + (wire_all(
            shorter,
        ) + wire(b.last())));
    }
}

proof fn lemma_inflate_pieces(done: Seq<u8>, rest: Inflation, k: int, max: usize)
    requires
        0 <= k <= rest.pieces.len(),
        done.len() + rest.pieces.take(k).flatten().len() <= max,
    ensures
        inflate_from(done, rest, max) == inflate_from(
            done + rest.pieces.take(k).flatten(),
            Inflation { pieces: rest.pieces.skip(k), failure: rest.failure },
            max,
        ),
    decreases k,
{
    if k == 0 {
        assert(done + rest.pieces.take(0).flatten() =~= done);
        assert(rest.pieces.skip(0) =~= rest.pieces);
    } else {
        let first = rest.pieces[0];
        let tail = Inflation { pieces: rest.pieces.drop_first(), failure: rest.failure };
        let taken = rest.pieces.take(k);
        assert(taken.drop_first() =~= tail.pieces.take(k - 1));
        assert(taken.flatten() == first + tail.pieces.take(k - 1).flatten());
        lemma_inflate_pieces(done + first, tail, k - 1, max);
        assert(tail.pieces.skip(k - 1) =~= rest.pieces.skip(k));
        assert(done + first + tail.pieces.take(k - 1).flatten() =~= done + taken.flatten());
    }
}

/// Inflating goes through the pieces in order. The first one that takes the total over
/// the limit ends it, with that total as the size, whatever comes after. Where none
/// does, it ends as the stream does: in the bytes of all pieces, or in the text of the
/// failure.
pub proof fn law_inflate_course(z: Seq<u8>, k: int, max: usize)
    requires
        0 <= k <= zlib_inflated(z).pieces.len(),
        zlib_inflated(z).pieces.take(k).flatten().len() <= max,
    ensures
        ({
            let all = zlib_inflated(z);
            let done = all.pieces.take(k).flatten();
            if k < all.pieces.len() {
                let size = done.len() + all.pieces[k].len();
                max < size <= usize::MAX ==> inflate(z, max) == Err::<Seq<u8>, ErrorView>(
                    ErrorView::FrameTooLarge { size: size as usize, max },
                )
            } else {
                match all.failure {
                    None => inflate(z, max) == Ok::<Seq<u8>, ErrorView>(all.pieces.flatten()),
                    Some(text) => inflate(z, max) == Err::<Seq<u8>, ErrorView>(
                        ErrorView::Compression(text),
                    ),
                }
            }
        }),
{
    let all = zlib_inflated(z);
    let done = all.pieces.take(k).flatten();
    lemma_inflate_pieces(Seq::empty(), all, k, max);
    assert(Seq::<u8>::empty() + done =~= done);
    if k == all.pieces.len() {
        assert(all.pieces.take(k) =~= all.pieces);
    }
}

/// The error for too many bytes names their number and the limit.
pub proof fn law_over_limit(size: nat, max: usize)
    ensures
        over_limit(size, max) matches ErrorView::FrameTooLarge { size: s, max: m } && m == max
            && s <= size && (size <= usize::MAX ==> s == size) && (size > usize::MAX ==> s
            == usize::MAX),
{
}

} // verus!
