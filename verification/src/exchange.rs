//! What holds of a client and a server together: what one sends is what the other
//! delivers, and what is acknowledged is what was sent.

use vstd::prelude::*;

use crate::client::{after_feed, after_flush, after_reply, event_frames, send_start, spoiled};
use crate::client::{out_of_step, Client, FeedingView, ReplyView, RestView, SendStepView};
use crate::client::{SentView, WriteOutcomeView};
use crate::connection::{after_delivery, after_read, after_wait, after_write, between_batches};
use crate::connection::{collected, take_frame, take_inner, take_json};
use crate::connection::{AckEvent, CollectedView, ConnectionConfig, InputView, NextView};
use crate::connection::{PendingView, ReadingView, WritingView};
use crate::error::ErrorView;
use crate::frame::{decoded, wire, wire_all, Decoded, FrameView, DEFAULT_MAX_FRAME_SIZE};
use crate::laws::{decoded_all, decoded_rest, law_back_to_back, law_progress, law_round_trip};
use crate::laws::{law_malformed, lemma_reads_back, reads_back, within};
use crate::server::{owed, BatchView};

verus! {

/// One `J` frame for each of `data`, numbered by `seqs`.
pub open spec fn json_frames(seqs: Seq<u32>, data: Seq<Seq<u8>>) -> Seq<FrameView> {
    Seq::new(data.len(), |i: int| FrameView::Json { seq: seqs[i], data: data[i] })
}

/// Whether each of `seqs` is above the one before it, and the first above `prev`.
pub open spec fn increasing(prev: u32, seqs: Seq<u32>) -> bool
    decreases seqs.len(),
{
    seqs.len() == 0 || (prev < seqs[0] && increasing(seqs[0], seqs.drop_first()))
}

/// What `c` becomes with what `frames` hold, one after the other.
pub open spec fn take_all(c: CollectedView, frames: Seq<FrameView>, max: usize) -> Result<
    CollectedView,
    ErrorView,
>
    decreases frames.len(),
{
    if frames.len() == 0 {
        Ok(c)
    } else {
        match take_frame(c, frames[0], max) {
            Ok(more) => take_all(more, frames.drop_first(), max),
            Err(e) => Err(e),
        }
    }
}

/// Events are accepted if and only if their sequence numbers increase. They are kept
/// as they are, in order, and the last number is remembered.
pub proof fn law_increasing(c: CollectedView, seqs: Seq<u32>, data: Seq<Seq<u8>>, max: usize)
    requires
        seqs.len() == data.len(),
    ensures
        increasing(c.last_seq, seqs) ==> take_all(c, json_frames(seqs, data), max) == Ok::<
            CollectedView,
            ErrorView,
        >(
            CollectedView {
                window: c.window,
                events: c.events + data,
                last_seq: if seqs.len() == 0 {
                    c.last_seq
                } else {
                    seqs.last()
                },
            },
        ),
        !increasing(c.last_seq, seqs) ==> (take_all(
            c,
            json_frames(seqs, data),
            max,
        ) matches Err(e) && e is SeqOutOfOrder),
    decreases seqs.len(),
{
    let frames = json_frames(seqs, data);
    if seqs.len() == 0 {
        assert(c.events + data =~= c.events);
    } else {
        assert(frames.drop_first() =~= json_frames(seqs.drop_first(), data.drop_first()));
        if c.last_seq < seqs[0] {
            let more = CollectedView {
                window: c.window,
                events: c.events.push(data[0]),
                last_seq: seqs[0],
            };
            law_increasing(more, seqs.drop_first(), data.drop_first(), max);
            assert(more.events + data.drop_first() =~= c.events + data);
        }
    }
}

pub(crate) proof fn lemma_take_first(
    c: CollectedView,
    seq: u32,
    data: Seq<u8>,
    following: Seq<u8>,
    max: usize,
)
    requires
        c.events.len() < c.window,
        data.len() <= max,
        data.len() <= u32::MAX,
    ensures
        take_inner(c, wire(FrameView::Json { seq, data }) + following, max) == match take_json(
            c,
            seq,
            data,
        ) {
            Ok(more) => take_inner(more, following, max),
            Err(e) => Err(e),
        },
{
    let frame = FrameView::Json { seq, data };
    let inner = wire(frame) + following;
    law_round_trip(frame, following, max);
    assert(inner.skip(wire(frame).len() as int) =~= following);
    assert(inner.len() >= wire(frame).len() >= 10);
}

/// What a compressed frame holds is taken as if it had come frame by frame. What
/// would go beyond the window is not looked at.
pub proof fn law_compressed_alike(
    c: CollectedView,
    seqs: Seq<u32>,
    data: Seq<Seq<u8>>,
    rest: Seq<u8>,
    max: usize,
)
    requires
        seqs.len() == data.len(),
        c.events.len() + data.len() <= c.window,
        rest.len() == 0 || c.events.len() + data.len() == c.window,
        forall|i: int| 0 <= i < data.len() ==> (#[trigger] data[i]).len() <= max,
        forall|i: int| 0 <= i < data.len() ==> (#[trigger] data[i]).len() <= u32::MAX,
    ensures
        take_frame(
            c,
            FrameView::Compressed(wire_all(json_frames(seqs, data)) + rest),
            max,
        ) == take_all(c, json_frames(seqs, data), max),
    decreases seqs.len(),
{
    let frames = json_frames(seqs, data);
    let inner = wire_all(frames) + rest;
    if seqs.len() > 0 {
        let tail = json_frames(seqs.drop_first(), data.drop_first());
        assert(frames.drop_first() =~= tail);
        let following = wire_all(tail) + rest;
        assert(inner =~= wire(frames[0]) + following);
        lemma_take_first(c, seqs[0], data[0], following, max);
        if c.last_seq < seqs[0] {
            let more = CollectedView {
                window: c.window,
                events: c.events.push(data[0]),
                last_seq: seqs[0],
            };
            law_compressed_alike(more, seqs.drop_first(), data.drop_first(), rest, max);
        }
    }
}

proof fn lemma_take_inner(c: CollectedView, inner: Seq<u8>, max: usize)
    requires
        c.events.len() <= c.window,
    ensures
        take_inner(c, inner, max) matches Ok(more) ==> {
            &&& more.window == c.window
            &&& c.events.is_prefix_of(more.events)
            &&& more.events.len() <= c.window
            &&& more.events.len() > c.events.len() ==> more.last_seq > c.last_seq
            &&& more.events.len() == c.events.len() ==> more == c
        },
    decreases inner.len(),
{
    if inner.len() > 0 && c.events.len() < c.window {
        law_progress(inner, max);
        if let Decoded::Complete(FrameView::Json { seq, data }, n) = decoded(inner, max) {
            if seq > c.last_seq {
                let more = CollectedView {
                    window: c.window,
                    events: c.events.push(data),
                    last_seq: seq,
                };
                lemma_take_inner(more, inner.skip(n as int), max);
            }
        }
    }
}

/// What arrives of a batch only grows, and never beyond its window: events stay
/// where they are, and the last sequence number rises with every one.
pub proof fn law_window(c: CollectedView, frame: FrameView, max: usize)
    requires
        c.events.len() < c.window,
    ensures
        take_frame(c, frame, max) matches Ok(more) ==> {
            &&& more.window == c.window
            &&& c.events.is_prefix_of(more.events)
            &&& more.events.len() <= c.window
            &&& more.events.len() > c.events.len() ==> more.last_seq > c.last_seq
            &&& more.events.len() == c.events.len() ==> more == c
        },
{
    if let FrameView::Compressed(inner) = frame {
        lemma_take_inner(c, inner, max);
    }
}

/// Whether a connection that waits for a frame has room for another event, where it
/// is inside a batch.
pub open spec fn has_room(state: ReadingView) -> bool {
    state.batch matches Some(c) ==> c.events.len() < c.window
}

/// A batch is handed on as soon as it holds as many events as its window says, and
/// not before: a connection that waits for a frame inside a batch lacks events, and
/// a batch that is handed on lacks none.
pub proof fn law_batch(state: ReadingView, input: InputView)
    requires
        has_room(state),
    ensures
        match after_read(state, input) {
            NextView::Read(next) => has_room(next) && next.config == state.config && next.batch
                is Some,
            NextView::Deliver(batch, pending) => {
                &&& batch.owes_ack
                &&& pending == (PendingView { config: state.config, last_seq: batch.last_seq })
                &&& match state.batch {
                    Some(c) => batch.events.len() == c.window && c.events.is_prefix_of(
                        batch.events,
                    ),
                    None => input == InputView::Frame(FrameView::Window(0)) && batch.events.len()
                        == 0 && batch.last_seq == 0,
                }
            },
            NextView::Done(_) => true,
            _ => false,
        },
{
    if let (InputView::Frame(frame), Some(c)) = (input, state.batch) {
        law_window(c, frame, state.config.max_frame_size);
    }
}

/// A stream that breaks the protocol, or breaks off, ends the connection in that
/// very error, wherever the connection stands. Only the end of the stream between
/// two batches is no error.
pub proof fn law_failure_ends(state: ReadingView, e: ErrorView)
    ensures
        after_read(state, InputView::Failed(e)) == NextView::Done(Err(e)),
        after_read(state, InputView::EndOfStream) == NextView::Done(
            if state.batch is None {
                Ok(())
            } else {
                Err(ErrorView::ConnectionClosed)
            },
        ),
{
}

/// Where a connection gets by reading `frames`, as far as it reads at all.
pub open spec fn after_frames(next: NextView, frames: Seq<FrameView>) -> NextView
    decreases frames.len(),
{
    match next {
        NextView::Read(state) => if frames.len() == 0 {
            next
        } else {
            after_frames(
                after_read(state, InputView::Frame(frames[0])),
                frames.drop_first(),
            )
        },
        _ => next,
    }
}

proof fn lemma_after_json(
    config: ConnectionConfig,
    c: CollectedView,
    seqs: Seq<u32>,
    data: Seq<Seq<u8>>,
)
    requires
        seqs.len() == data.len(),
        0 < data.len(),
        c.events.len() + data.len() == c.window,
        increasing(c.last_seq, seqs),
    ensures
        after_frames(
            NextView::Read(ReadingView { config, batch: Some(c) }),
            json_frames(seqs, data),
        ) == collected(
            config,
            CollectedView { window: c.window, events: c.events + data, last_seq: seqs.last() },
        ),
    decreases seqs.len(),
{
    let frames = json_frames(seqs, data);
    let more = CollectedView {
        window: c.window,
        events: c.events.push(data[0]),
        last_seq: seqs[0],
    };
    assert(take_frame(c, frames[0], config.max_frame_size) == Ok::<CollectedView, ErrorView>(more));
    assert(more.events + data.drop_first() =~= c.events + data);
    assert(frames.drop_first() =~= json_frames(seqs.drop_first(), data.drop_first()));
    if data.len() > 1 {
        lemma_after_json(config, more, seqs.drop_first(), data.drop_first());
    } else {
        reveal_with_fuel(after_frames, 2);
        assert(c.events + data =~= more.events);
    }
}

/// The `J` frames at the front of `frames`, each as its number and its payload.
pub open spec fn leading_events(frames: Seq<FrameView>) -> Seq<(u32, Seq<u8>)>
    decreases frames.len(),
{
    if frames.len() == 0 {
        Seq::empty()
    } else {
        match frames[0] {
            FrameView::Json { seq, data } => seq![(seq, data)] + leading_events(
                frames.drop_first(),
            ),
            _ => Seq::empty(),
        }
    }
}

/// The events that `frame` carries, itself or inside it.
pub open spec fn carried(frame: FrameView, max: usize) -> Seq<(u32, Seq<u8>)> {
    match frame {
        FrameView::Json { seq, data } => seq![(seq, data)],
        FrameView::Compressed(inner) => leading_events(decoded_all(inner, max)),
        _ => Seq::empty(),
    }
}

/// The events that `frames` carry, in wire order.
pub open spec fn carried_all(frames: Seq<FrameView>, max: usize) -> Seq<(u32, Seq<u8>)>
    decreases frames.len(),
{
    if frames.len() == 0 {
        Seq::empty()
    } else {
        carried(frames[0], max) + carried_all(frames.drop_first(), max)
    }
}

/// Whether `frame` carries events, and nothing but events.
pub open spec fn sound(frame: FrameView, max: usize) -> bool {
    match frame {
        FrameView::Json { .. } => true,
        FrameView::Compressed(inner) => {
            &&& leading_events(decoded_all(inner, max)).len() == decoded_all(inner, max).len()
            &&& decoded_rest(inner, max).len() == 0
        },
        _ => false,
    }
}

/// The numbers of `events`.
pub open spec fn seqs_of(events: Seq<(u32, Seq<u8>)>) -> Seq<u32> {
    Seq::new(events.len(), |i: int| events[i].0)
}

/// The payloads of `events`.
pub open spec fn data_of(events: Seq<(u32, Seq<u8>)>) -> Seq<Seq<u8>> {
    Seq::new(events.len(), |i: int| events[i].1)
}

/// `c`, with `events` after what is there.
pub open spec fn grown(c: CollectedView, events: Seq<(u32, Seq<u8>)>) -> CollectedView {
    CollectedView {
        window: c.window,
        events: c.events + data_of(events),
        last_seq: if events.len() == 0 {
            c.last_seq
        } else {
            events.last().0
        },
    }
}

/// As many of `events` as `c` has room for.
pub open spec fn fitting(c: CollectedView, events: Seq<(u32, Seq<u8>)>) -> Seq<(u32, Seq<u8>)> {
    if c.events.len() + events.len() <= c.window {
        events
    } else {
        events.take(c.window - c.events.len())
    }
}

/// Whether `c` can take in as many of `events` as it has room for.
pub open spec fn in_order(c: CollectedView, events: Seq<(u32, Seq<u8>)>) -> bool {
    increasing(c.last_seq, seqs_of(fitting(c, events)))
}

proof fn lemma_increasing_after(prev: u32, a: Seq<u32>, b: Seq<u32>)
    ensures
        increasing(prev, a + b) == (increasing(prev, a) && increasing(
            if a.len() == 0 {
                prev
            } else {
                a.last()
            },
            b,
        )),
    decreases a.len(),
{
    if a.len() == 0 {
        assert(a + b =~= b);
    } else {
        assert((a + b).drop_first() =~= a.drop_first() + b);
        lemma_increasing_after(a[0], a.drop_first(), b);
    }
}

proof fn lemma_grown_after(
    c: CollectedView,
    a: Seq<(u32, Seq<u8>)>,
    b: Seq<(u32, Seq<u8>)>,
)
    requires
        c.events.len() + a.len() <= c.window,
    ensures
        fitting(c, a + b) == a + fitting(grown(c, a), b),
        in_order(c, a + b) == (increasing(c.last_seq, seqs_of(a)) && in_order(grown(c, a), b)),
        grown(c, fitting(c, a + b)) == grown(grown(c, a), fitting(grown(c, a), b)),
{
    let later = fitting(grown(c, a), b);
    assert(fitting(c, a + b) =~= a + later);
    assert(seqs_of(a + later) =~= seqs_of(a) + seqs_of(later));
    lemma_increasing_after(c.last_seq, seqs_of(a), seqs_of(later));
    assert(grown(c, a + later).events =~= grown(grown(c, a), later).events);
}

proof fn lemma_one_event(c: CollectedView, seq: u32, data: Seq<u8>)
    ensures
        increasing(c.last_seq, seqs_of(seq![(seq, data)])) == (c.last_seq < seq),
        grown(c, seq![(seq, data)]) == (CollectedView {
            window: c.window,
            events: c.events.push(data),
            last_seq: seq,
        }),
{
    reveal_with_fuel(increasing, 2);
    assert(grown(c, seq![(seq, data)]).events =~= c.events.push(data));
}

proof fn lemma_take_inner_events(c: CollectedView, inner: Seq<u8>, max: usize)
    requires
        c.events.len() <= c.window,
    ensures
        ({
            let events = carried(FrameView::Compressed(inner), max);
            match take_inner(c, inner, max) {
                Ok(more) => in_order(c, events) && more == grown(c, fitting(c, events)),
                Err(_) => !(in_order(c, events) && sound(FrameView::Compressed(inner), max)),
            }
        }),
    decreases inner.len(),
{
    let frames = decoded_all(inner, max);
    let events = leading_events(frames);
    law_progress(inner, max);
    if inner.len() == 0 || c.events.len() >= c.window {
        assert(fitting(c, events) =~= Seq::empty());
        assert(grown(c, Seq::empty()).events =~= c.events);
    } else if let Decoded::Complete(frame, n) = decoded(inner, max) {
        let following = inner.skip(n as int);
        assert(frames.drop_first() =~= decoded_all(following, max));
        if let FrameView::Json { seq, data } = frame {
            let first = seq![(seq, data)];
            lemma_one_event(c, seq, data);
            lemma_grown_after(c, first, leading_events(frames.drop_first()));
            if c.last_seq < seq {
                lemma_take_inner_events(grown(c, first), following, max);
            }
        }
    }
}

proof fn lemma_take_frame_events(c: CollectedView, frame: FrameView, max: usize)
    requires
        c.events.len() < c.window,
    ensures
        match take_frame(c, frame, max) {
            Ok(more) => in_order(c, carried(frame, max)) && more == grown(
                c,
                fitting(c, carried(frame, max)),
            ),
            Err(_) => !(in_order(c, carried(frame, max)) && sound(frame, max)),
        },
{
    match frame {
        FrameView::Json { seq, data } => {
            lemma_one_event(c, seq, data);
        },
        FrameView::Compressed(inner) => {
            lemma_take_inner_events(c, inner, max);
        },
        _ => {},
    }
}

proof fn lemma_after_events(config: ConnectionConfig, c: CollectedView, frames: Seq<FrameView>)
    requires
        c.events.len() < c.window,
    ensures
        ({
            let max = config.max_frame_size;
            let events = carried_all(frames, max);
            let more = grown(c, fitting(c, events));
            match after_frames(
                NextView::Read(ReadingView { config, batch: Some(c) }),
                frames,
            ) {
                NextView::Done(r) => r is Err && !(in_order(c, events) && forall|i: int|
                    0 <= i < frames.len() ==> sound(#[trigger] frames[i], max)),
                next => in_order(c, events) && next == collected(config, more),
            }
        }),
    decreases frames.len(),
{
    let max = config.max_frame_size;
    let start = NextView::Read(ReadingView { config, batch: Some(c) });
    if frames.len() == 0 {
        assert(grown(c, Seq::empty()).events =~= c.events);
    } else {
        let first = carried(frames[0], max);
        let tail = frames.drop_first();
        let later = carried_all(tail, max);
        lemma_take_frame_events(c, frames[0], max);
        match take_frame(c, frames[0], max) {
            Err(e) => {
                reveal_with_fuel(after_frames, 2);
                assert(after_frames(start, frames) == NextView::Done(Err(e)));
                if in_order(c, first + later) && forall|i: int|
                    0 <= i < frames.len() ==> sound(#[trigger] frames[i], max) {
                    assert(sound(frames[0], max));
                    if c.events.len() + first.len() <= c.window {
                        lemma_grown_after(c, first, later);
                    } else {
                        assert(fitting(c, first + later) =~= fitting(c, first));
                    }
                }
            },
            Ok(more) => {
                assert(after_frames(start, frames) == after_frames(
                    collected(config, more),
                    tail,
                ));
                if c.events.len() + first.len() < c.window {
                    lemma_grown_after(c, first, later);
                    lemma_after_events(config, more, tail);
                    if forall|i: int| 0 <= i < frames.len() ==> sound(#[trigger] frames[i], max) {
                        assert forall|i: int| 0 <= i < tail.len() implies sound(
                            #[trigger] tail[i],
                            max,
                        ) by {
                            assert(tail[i] == frames[i + 1]);
                        }
                    }
                } else {
                    assert(fitting(c, first + later) =~= fitting(c, first));
                }
            },
        }
    }
}

/// What a batch holds, however its events come, plain, compressed or mixed: the first
/// `n` events of the stream, in wire order, with increasing numbers, and it is
/// acknowledged by the last of them. As long as there are fewer, the connection reads
/// on. It ends in an error only where the numbers do not increase, or where something
/// else stands among the events.
pub proof fn law_mixture(config: ConnectionConfig, n: u32, frames: Seq<FrameView>)
    ensures
        ({
            let max = config.max_frame_size;
            let events = carried_all(frames, max);
            let next = after_frames(
                between_batches(config),
                seq![FrameView::Window(n)] + frames,
            );
            if events.len() < n {
                match next {
                    NextView::Read(_) => increasing(0, seqs_of(events)),
                    NextView::Done(Err(_)) => !(increasing(0, seqs_of(events)) && forall|i: int|
                        0 <= i < frames.len() ==> sound(#[trigger] frames[i], max)),
                    _ => false,
                }
            } else {
                let first = events.take(n as int);
                let last_seq = if n == 0 {
                    0
                } else {
                    first.last().0
                };
                match next {
                    NextView::Deliver(batch, pending) => {
                        &&& increasing(0, seqs_of(first))
                        &&& batch == (BatchView {
                            events: data_of(first),
                            last_seq,
                            owes_ack: true,
                        })
                        &&& pending == (PendingView { config, last_seq })
                        &&& after_wait(pending, AckEvent::Lost) matches NextView::Write(ack, _)
                            && ack == FrameView::Ack(last_seq)
                    },
                    NextView::Done(Err(_)) => !(increasing(0, seqs_of(first)) && forall|i: int|
                        0 <= i < frames.len() ==> sound(#[trigger] frames[i], max)),
                    _ => false,
                }
            }
        }),
{
    let max = config.max_frame_size;
    let all = seq![FrameView::Window(n)] + frames;
    let events = carried_all(frames, max);
    let c = CollectedView { window: n, events: Seq::empty(), last_seq: 0 };
    assert(all.drop_first() =~= frames);
    assert(after_frames(between_batches(config), all) == after_frames(
        collected(config, c),
        frames,
    ));
    if n > 0 {
        lemma_after_events(config, c, frames);
        assert(events.len() >= n ==> fitting(c, events) =~= events.take(n as int));
        assert(grown(c, fitting(c, events)).events =~= data_of(fitting(c, events)));
    } else {
        assert(data_of(events.take(0)) =~= Seq::empty());
    }
}

/// The numbers from `first` on, as many as `n`.
pub open spec fn numbers(first: u32, n: nat) -> Seq<u32> {
    Seq::new(n, |i: int| (first + i) as u32)
}

proof fn lemma_numbers(first: u32, n: nat)
    requires
        first > 0,
        first + n <= u32::MAX + 1,
    ensures
        increasing((first - 1) as u32, numbers(first, n)),
    decreases n,
{
    if n == 1 {
        reveal_with_fuel(increasing, 2);
    } else if n > 1 {
        lemma_numbers((first + 1) as u32, (n - 1) as nat);
        assert(numbers(first, n).drop_first() =~= numbers(
            (first + 1) as u32,
            (n - 1) as nat,
        ));
    }
}

/// The frames that a client sends for `events`: their number, and then the events,
/// one by one or all in a compressed frame.
pub open spec fn plan(client: Client, events: Seq<Seq<u8>>) -> Seq<FrameView> {
    seq![FrameView::Window(events.len() as u32)] + if client.compression_level > 0 {
        seq![FrameView::Compressed(wire_all(event_frames(events)))]
    } else {
        event_frames(events)
    }
}

/// Where sending gets by `k` successful writes.
pub open spec fn after_feeds(step: SendStepView, k: nat) -> SendStepView
    decreases k,
{
    if k == 0 {
        step
    } else {
        match after_feeds(step, (k - 1) as nat) {
            SendStepView::Feed(_, state) => after_feed(state, WriteOutcomeView::Written),
            done => done,
        }
    }
}

/// Whether every one of `events` is within the limit `max`.
pub open spec fn events_within(events: Seq<Seq<u8>>, max: usize) -> bool {
    forall|i: int|
        0 <= i < events.len() ==> (#[trigger] events[i]).len() <= max && events[i].len()
            <= u32::MAX
}

proof fn lemma_feeds_uncompressed(client: Client, events: Seq<Seq<u8>>, k: nat)
    requires
        client.usable,
        client.compression_level == 0,
        0 < events.len(),
        events_within(events, DEFAULT_MAX_FRAME_SIZE),
        k <= events.len(),
    ensures
        after_feeds(send_start(client, events), k) == SendStepView::Feed(
            plan(client, events)[k as int],
            FeedingView {
                client,
                n: events.len() as u32,
                rest: RestView::Frames(wire_all(event_frames(events).skip(k as int))),
            },
        ),
    decreases k,
{
    let frames = event_frames(events);
    if k == 0 {
        assert(frames.skip(0) =~= frames);
    } else {
        lemma_feeds_uncompressed(client, events, (k - 1) as nat);
        let left = frames.skip(k - 1);
        let following = wire_all(left.drop_first());
        assert(left.drop_first() =~= frames.skip(k as int));
        law_round_trip(left[0], following, DEFAULT_MAX_FRAME_SIZE);
        assert((wire(left[0]) + following).skip(wire(left[0]).len() as int) =~= following);
    }
}

/// As long as every write succeeds, a client sends the number of events and then
/// the events themselves, numbered from 1 on: one by one, or in one compressed
/// frame. Then it flushes, and waits for the acknowledgement.
pub proof fn law_plan(client: Client, events: Seq<Seq<u8>>, k: nat)
    requires
        client.usable,
        0 < events.len(),
        client.compression_level > 0 || events_within(events, DEFAULT_MAX_FRAME_SIZE),
        k <= plan(client, events).len(),
    ensures
        ({
            let step = after_feeds(send_start(client, events), k);
            let sent = SentView { client, n: events.len() as u32 };
            if k < plan(client, events).len() {
                step matches SendStepView::Feed(frame, _) && frame == plan(
                    client,
                    events,
                )[k as int]
            } else {
                &&& step == SendStepView::Flush(sent)
                &&& after_flush(sent, WriteOutcomeView::Written) == SendStepView::AwaitReply(sent)
            }
        }),
{
    if client.compression_level > 0 {
        reveal_with_fuel(after_feeds, 3);
    } else {
        let n = events.len();
        lemma_feeds_uncompressed(
            client,
            events,
            if k <= n {
                k
            } else {
                n
            },
        );
        if k > n {
            assert(event_frames(events).skip(n as int) =~= Seq::empty());
        }
    }
}

/// What a client sends is what a server delivers: from the bytes of the frames that
/// carry `events`, the server makes a batch of exactly these events, in this order,
/// with their number as the last sequence number. Whether they went out compressed
/// makes no difference.
pub proof fn law_delivered(client: Client, events: Seq<Seq<u8>>, config: ConnectionConfig)
    requires
        0 < events.len() <= u32::MAX,
        events_within(events, config.max_frame_size),
        client.compression_level > 0 ==> {
            let frame = FrameView::Compressed(wire_all(event_frames(events)));
            within(frame, config.max_frame_size) && reads_back(frame)
        },
    ensures
        after_frames(
            between_batches(config),
            decoded_all(wire_all(plan(client, events)), config.max_frame_size),
        ) == NextView::Deliver(
            BatchView { events, last_seq: events.len() as u32, owes_ack: true },
            PendingView { config, last_seq: events.len() as u32 },
        ),
{
    let max = config.max_frame_size;
    let frames = plan(client, events);
    let n = events.len() as u32;
    assert forall|i: int| 0 <= i < frames.len() implies within(#[trigger] frames[i], max)
        && reads_back(frames[i]) by {
        if frames[i] !is Compressed {
            lemma_reads_back(frames[i]);
        }
        if client.compression_level == 0 && i > 0 {
            assert(events[i - 1].len() <= max);
        }
    }
    law_back_to_back(frames, Seq::empty(), max);
    assert(wire_all(frames) + Seq::<u8>::empty() =~= wire_all(frames));

    let c = CollectedView { window: n, events: Seq::empty(), last_seq: 0 };
    assert(c.events + events =~= events);
    lemma_numbers(1, events.len());
    assert(event_frames(events) =~= json_frames(numbers(1, events.len()), events));
    let tail = frames.drop_first();
    if client.compression_level > 0 {
        let payload = wire_all(event_frames(events));
        assert(tail =~= seq![FrameView::Compressed(payload)]);
        assert(payload + Seq::<u8>::empty() =~= payload);
        law_compressed_alike(c, numbers(1, events.len()), events, Seq::empty(), max);
        law_increasing(c, numbers(1, events.len()), events, max);
        reveal_with_fuel(after_frames, 3);
    } else {
        assert(tail =~= event_frames(events));
        lemma_after_json(config, c, numbers(1, events.len()), events);
    }
}

/// A batch of `n` events that its consumer acknowledges, or lets go, is acknowledged
/// to the client by its last number, once; the client then has all `n` events
/// acknowledged, and the server is ready for the next batch.
pub proof fn law_acknowledged(client: Client, n: u32, config: ConnectionConfig)
    ensures
        ({
            let pending = PendingView { config, last_seq: n };
            let writing = WritingView { pending, keepalive: false };
            &&& after_delivery(pending, true) == NextView::AwaitAck(pending)
            &&& after_wait(pending, AckEvent::Acked(n)) == NextView::Write(
                FrameView::Ack(n),
                writing,
            )
            &&& after_wait(pending, AckEvent::Lost) == NextView::Write(FrameView::Ack(n), writing)
            &&& after_write(writing, Ok(())) == between_batches(config)
        }),
        after_reply(SentView { client, n }, ReplyView::Frame(FrameView::Ack(n)))
            == SendStepView::Done(client, Ok(n)),
{
}

/// Where `k` keepalive intervals lead, one after the other, with every write a
/// success.
pub open spec fn after_intervals(next: NextView, k: nat) -> NextView
    decreases k,
{
    if k == 0 {
        next
    } else {
        match after_intervals(next, (k - 1) as nat) {
            NextView::AwaitAck(state) => match after_wait(state, AckEvent::Elapsed) {
                NextView::Write(_, writing) => after_write(writing, Ok(())),
                other => other,
            },
            other => other,
        }
    }
}

/// However long a batch is held, the server goes on waiting for it. All that it
/// writes meanwhile is `Ack(0)`, and nothing at all where keepalives are off.
pub proof fn law_keepalive(pending: PendingView, k: nat)
    ensures
        after_intervals(NextView::AwaitAck(pending), k) == NextView::AwaitAck(pending),
        match after_wait(pending, AckEvent::Elapsed) {
            NextView::Write(frame, _) => pending.config.keepalive is Some && frame
                == FrameView::Ack(0),
            next => pending.config.keepalive is None && next == NextView::AwaitAck(pending),
        },
    decreases k,
{
    if k > 0 {
        law_keepalive(pending, (k - 1) as nat);
    }
}

/// Where `replies` lead, one after the other, as far as the client waits at all.
pub open spec fn after_replies(step: SendStepView, replies: Seq<ReplyView>) -> SendStepView
    decreases replies.len(),
{
    match step {
        SendStepView::AwaitReply(state) => if replies.len() == 0 {
            step
        } else {
            after_replies(after_reply(state, replies[0]), replies.drop_first())
        },
        _ => step,
    }
}

/// Acknowledgements of less than the whole batch, `Ack(0)` among them, do not end
/// the waiting, however many there are; the first one of the whole batch does.
pub proof fn law_partial_acks(state: SentView, seqs: Seq<u32>, last: u32)
    requires
        forall|i: int| 0 <= i < seqs.len() ==> #[trigger] seqs[i] < state.n,
    ensures
        ({
            let replies = seqs.map_values(|seq: u32| ReplyView::Frame(FrameView::Ack(seq)));
            let waiting = SendStepView::AwaitReply(state);
            &&& after_replies(waiting, replies) == waiting
            &&& last >= state.n ==> after_replies(
                waiting,
                replies.push(ReplyView::Frame(FrameView::Ack(last))),
            ) == SendStepView::Done(state.client, Ok(state.n))
        }),
    decreases seqs.len(),
{
    let as_reply = |seq: u32| ReplyView::Frame(FrameView::Ack(seq));
    let replies = seqs.map_values(as_reply);
    let ended = replies.push(ReplyView::Frame(FrameView::Ack(last)));
    if seqs.len() == 0 {
        reveal_with_fuel(after_replies, 2);
    } else {
        let fewer = seqs.drop_first();
        assert forall|i: int| 0 <= i < fewer.len() implies #[trigger] fewer[i] < state.n by {
            assert(fewer[i] == seqs[i + 1]);
        }
        law_partial_acks(state, fewer, last);
        assert(replies.drop_first() =~= fewer.map_values(as_reply));
        assert(ended.drop_first() =~= fewer.map_values(as_reply).push(
            ReplyView::Frame(FrameView::Ack(last)),
        ));
    }
}

/// Once a write or an acknowledgement has timed out, or either side has sent what
/// does not belong there, every further batch fails, whatever it holds, and nothing
/// of it is sent.
pub proof fn law_spoiled(
    feeding: FeedingView,
    sent: SentView,
    reply: ReplyView,
    events: Seq<Seq<u8>>,
)
    requires
        match reply {
            ReplyView::Frame(frame) => frame !is Ack,
            ReplyView::Failed(e) => out_of_step(e),
            ReplyView::TimedOut => true,
            ReplyView::Closed => false,
        },
    ensures
        after_feed(feeding, WriteOutcomeView::TimedOut) == SendStepView::Done(
            spoiled(feeding.client),
            Err(ErrorView::WriteTimeout),
        ),
        (feeding.rest matches RestView::Frames(payload) && decoded(
            payload,
            DEFAULT_MAX_FRAME_SIZE,
        ) is Malformed) ==> (after_feed(
            feeding,
            WriteOutcomeView::Written,
        ) matches SendStepView::Done(client, Err(_)) && client == spoiled(feeding.client)),
        after_flush(sent, WriteOutcomeView::TimedOut) == SendStepView::Done(
            spoiled(sent.client),
            Err(ErrorView::WriteTimeout),
        ),
        after_reply(sent, reply) matches SendStepView::Done(client, Err(_)) && client == spoiled(
            sent.client,
        ),
        send_start(spoiled(sent.client), events) == SendStepView::Done(
            spoiled(sent.client),
            Err(ErrorView::ConnectionClosed),
        ),
{
    if let RestView::Frames(payload) = feeding.rest {
        law_malformed(payload, DEFAULT_MAX_FRAME_SIZE);
    }
}

/// A batch whose acknowledgement is still owed may go away, its events taken or not:
/// the connection acknowledges it all the same, by the number that was owed.
pub proof fn law_let_go(batch: BatchView, config: ConnectionConfig)
    requires
        batch.owes_ack,
    ensures
        ({
            let pending = PendingView { config, last_seq: batch.last_seq };
            owed(batch) matches Some(seq) && after_wait(pending, AckEvent::Lost) == after_wait(
                pending,
                AckEvent::Acked(seq),
            )
        }),
{
}

} // verus!
