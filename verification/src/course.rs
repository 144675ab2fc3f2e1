//! What holds of the course of a connection, whatever happens on it: what is refused
//! and how, and what an acknowledgement stands for.

use vstd::arithmetic::div_mod::{lemma_fundamental_div_mod_converse, lemma_small_mod};
use vstd::prelude::*;

use crate::connection::{after_delivery, after_read, after_tls, after_wait, after_write};
use crate::connection::{between_batches, take_inner, AckEvent, CollectedView};
use crate::connection::{ConnectionConfig, InputView, NextView, PendingView, ReadingView};
use crate::connection::WritingView;
use crate::error::ErrorView;
use crate::exchange::{increasing, json_frames, lemma_take_first};
use crate::frame::{decoded, wire, wire_all, Decoded, FrameView};
use crate::laws::law_progress;
use crate::server::{accept_step, after_accept, after_end, AcceptEvent, AcceptStep};
use crate::server::{BatchView, ServerView};
use crate::service::{advance, advance_all, served, Event, Served};

verus! {

/// A connection begins between two batches: it waits for a frame, and has taken in
/// nothing. One that is to be secured begins so after a handshake that worked out,
/// and ends in the error of one that did not.
pub proof fn law_beginning(config: ConnectionConfig, e: std::io::Error)
    ensures
        between_batches(config) == NextView::Read(ReadingView { config, batch: None }),
        after_tls(config, Ok(())) == NextView::Read(ReadingView { config, batch: None }),
        after_tls(config, Err(e)) == NextView::Done(Err(ErrorView::Io(e))),
{
}

/// Between two batches nothing but a window is in place. It says how many events are
/// to come: none makes an empty batch at once, and any other number is waited for.
pub proof fn law_batch_start(config: ConnectionConfig, frame: FrameView)
    ensures
        ({
            let next = after_read(
                ReadingView { config, batch: None },
                InputView::Frame(frame),
            );
            match frame {
                FrameView::Window(n) => if n == 0 {
                    next == NextView::Deliver(
                        BatchView { events: Seq::empty(), last_seq: 0, owes_ack: true },
                        PendingView { config, last_seq: 0 },
                    )
                } else {
                    let nothing = CollectedView { window: n, events: Seq::empty(), last_seq: 0 };
                    next == NextView::Read(ReadingView { config, batch: Some(nothing) })
                },
                _ => next == NextView::Done(
                    Err(ErrorView::UnexpectedFrame("expected Window at batch start"@)),
                ),
            }
        }),
{
}

/// Inside a window, an event is taken in exactly where its number is above the last
/// one, and goes behind what is there; with the last event of the window the batch is
/// handed on. A window and an acknowledgement are out of place there.
pub proof fn law_inside_window(
    config: ConnectionConfig,
    c: CollectedView,
    seq: u32,
    data: Seq<u8>,
    n: u32,
)
    requires
        c.events.len() < c.window,
    ensures
        ({
            let state = ReadingView { config, batch: Some(c) };
            let next = after_read(state, InputView::Frame(FrameView::Json { seq, data }));
            let out_of_place = NextView::Done(
                Err(ErrorView::UnexpectedFrame("expected J or C inside window"@)),
            );
            &&& seq <= c.last_seq ==> next == NextView::Done(
                Err(ErrorView::SeqOutOfOrder { got: seq, prev: c.last_seq }),
            )
            &&& seq > c.last_seq && c.events.len() + 1 < c.window ==> next == NextView::Read(
                ReadingView {
                    config,
                    batch: Some(
                        CollectedView {
                            window: c.window,
                            events: c.events.push(data),
                            last_seq: seq,
                        },
                    ),
                },
            )
            &&& seq > c.last_seq && c.events.len() + 1 == c.window ==> next == NextView::Deliver(
                BatchView { events: c.events.push(data), last_seq: seq, owes_ack: true },
                PendingView { config, last_seq: seq },
            )
            &&& after_read(state, InputView::Frame(FrameView::Window(n))) == out_of_place
            &&& after_read(state, InputView::Frame(FrameView::Ack(n))) == out_of_place
        }),
{
}

proof fn lemma_inner_refused(
    c: CollectedView,
    seqs: Seq<u32>,
    data: Seq<Seq<u8>>,
    rest: Seq<u8>,
    max: usize,
)
    requires
        seqs.len() == data.len(),
        c.events.len() + data.len() < c.window,
        increasing(c.last_seq, seqs),
        forall|i: int|
            0 <= i < data.len() ==> (#[trigger] data[i]).len() <= max && data[i].len()
                <= u32::MAX,
        rest.len() > 0,
    ensures
        ({
            let r = take_inner(c, wire_all(json_frames(seqs, data)) + rest, max);
            let prev = if seqs.len() == 0 {
                c.last_seq
            } else {
                seqs.last()
            };
            match decoded(rest, max) {
                Decoded::Incomplete => r matches Err(ErrorView::InvalidFrame(text)) && text
                    == "compressed payload truncated"@,
                Decoded::Malformed(e, _) => r matches Err(err) && err == e,
                Decoded::Complete(FrameView::Json { seq, .. }, _) => seq <= prev ==> (r matches Err(
                    err,
                ) && err == (ErrorView::SeqOutOfOrder { got: seq, prev })),
                Decoded::Complete(_, _) => r matches Err(ErrorView::UnexpectedFrame(text)) && text
                    == "compressed payload must contain only J frames"@,
            }
        }),
    decreases seqs.len(),
{
    let frames = json_frames(seqs, data);
    if seqs.len() == 0 {
        assert(wire_all(frames) + rest =~= rest);
        law_progress(rest, max);
    } else {
        let fewer = seqs.drop_first();
        let later = data.drop_first();
        assert(frames.drop_first() =~= json_frames(fewer, later));
        let following = wire_all(json_frames(fewer, later)) + rest;
        assert(wire_all(frames) + rest =~= wire(frames[0]) + following);
        lemma_take_first(c, seqs[0], data[0], following, max);
        let more = CollectedView {
            window: c.window,
            events: c.events.push(data[0]),
            last_seq: seqs[0],
        };
        assert forall|i: int| 0 <= i < later.len() implies (#[trigger] later[i]).len() <= max
            && later[i].len() <= u32::MAX by {
            assert(later[i] == data[i + 1]);
        }
        lemma_inner_refused(more, fewer, later, rest, max);
    }
}

/// A compressed frame is read event by event, as long as there is room. What comes
/// after the events, if the window still has room for it, is refused for what it is:
/// for being cut short, for being no frame, for its number, or for not being an event.
/// The connection ends in that error.
pub proof fn law_inner_refused(
    config: ConnectionConfig,
    c: CollectedView,
    seqs: Seq<u32>,
    data: Seq<Seq<u8>>,
    rest: Seq<u8>,
)
    requires
        seqs.len() == data.len(),
        c.events.len() + data.len() < c.window,
        increasing(c.last_seq, seqs),
        forall|i: int|
            0 <= i < data.len() ==> (#[trigger] data[i]).len() <= config.max_frame_size
                && data[i].len() <= u32::MAX,
        rest.len() > 0,
    ensures
        ({
            let inner = wire_all(json_frames(seqs, data)) + rest;
            let next = after_read(
                ReadingView { config, batch: Some(c) },
                InputView::Frame(FrameView::Compressed(inner)),
            );
            let prev = if seqs.len() == 0 {
                c.last_seq
            } else {
                seqs.last()
            };
            match decoded(rest, config.max_frame_size) {
                Decoded::Incomplete => next == NextView::Done(
                    Err(ErrorView::InvalidFrame("compressed payload truncated"@)),
                ),
                Decoded::Malformed(e, _) => next == NextView::Done(Err(e)),
                Decoded::Complete(FrameView::Json { seq, .. }, _) => seq <= prev ==> next
                    == NextView::Done(Err(ErrorView::SeqOutOfOrder { got: seq, prev })),
                Decoded::Complete(_, _) => next == NextView::Done(
                    Err(
                        ErrorView::UnexpectedFrame(
                            "compressed payload must contain only J frames"@,
                        ),
                    ),
                ),
            }
        }),
{
    lemma_inner_refused(c, seqs, data, rest, config.max_frame_size);
}

/// A batch that its consumer has taken is waited for. One that nobody takes ends the
/// connection well, whatever it holds: nothing is written for it.
pub proof fn law_delivery(pending: PendingView)
    ensures
        after_delivery(pending, true) == NextView::AwaitAck(pending),
        after_delivery(pending, false) == NextView::Done(Ok(())),
{
}

/// The consumer's number is what is acknowledged; a batch that is lost is acknowledged
/// by its last one. An interval that passes is worth an `Ack(0)` where keepalives are
/// on, and nothing where they are off.
pub proof fn law_waiting(pending: PendingView, seq: u32)
    ensures
        after_wait(pending, AckEvent::Acked(seq)) == NextView::Write(
            FrameView::Ack(seq),
            WritingView { pending, keepalive: false },
        ),
        after_wait(pending, AckEvent::Lost) == NextView::Write(
            FrameView::Ack(pending.last_seq),
            WritingView { pending, keepalive: false },
        ),
        pending.config.keepalive is Some ==> after_wait(pending, AckEvent::Elapsed)
            == NextView::Write(FrameView::Ack(0), WritingView { pending, keepalive: true }),
        pending.config.keepalive is None ==> after_wait(pending, AckEvent::Elapsed)
            == NextView::AwaitAck(pending),
{
}

/// After a keepalive the waiting goes on, and after an acknowledgement the next batch
/// begins, on the same terms. What cannot be written ends the connection in its error.
pub proof fn law_writing(pending: PendingView, keepalive: bool, e: ErrorView)
    ensures
        after_write(WritingView { pending, keepalive: true }, Ok(())) == NextView::AwaitAck(
            pending,
        ),
        after_write(WritingView { pending, keepalive: false }, Ok(())) == NextView::Read(
            ReadingView { config: pending.config, batch: None },
        ),
        after_write(WritingView { pending, keepalive }, Err(e)) == NextView::Done(Err(e)),
{
}

/// The batch that `connection` still has to answer for: one that waits to be
/// acknowledged, or whose acknowledgement is being written.
pub open spec fn answers_for(connection: Served) -> Option<PendingView> {
    match connection {
        Served::Running(NextView::AwaitAck(pending)) => Some(pending),
        Served::Running(NextView::Write(_, writing)) => Some(writing.pending),
        _ => None,
    }
}

/// Whether `pending` was handed to a consumer in the course of `events`, which
/// `start` went through: it was complete, and somebody took it.
pub open spec fn was_taken(start: Served, events: Seq<Event>, pending: PendingView) -> bool {
    exists|i: int|
        {
            &&& 0 <= i < events.len()
            &&& #[trigger] events[i] == Event::Delivered(true)
            &&& advance_all(start, events.take(i)) matches Served::Running(
                NextView::Deliver(batch, state),
            ) && state == pending
        }
}

/// Nothing is acknowledged that nobody took. Whatever happens on a connection, a frame
/// is written, and an acknowledgement waited for, only for a batch that was handed to
/// a consumer before; and what is written is an `Ack`: that of the batch's last number
/// or of the number the consumer gave, or `Ack(0)` as a keepalive.
pub proof fn law_acknowledges_what_was_taken(
    config: ConnectionConfig,
    handshake: bool,
    events: Seq<Event>,
)
    ensures
        ({
            let start = served(config, handshake);
            let now = advance_all(start, events);
            &&& answers_for(now) matches Some(pending) ==> was_taken(start, events, pending)
            &&& now matches Served::Running(NextView::Write(frame, writing)) ==> {
                &&& frame is Ack
                &&& writing.keepalive ==> frame == FrameView::Ack(0)
            }
        }),
    decreases events.len(),
{
    let start = served(config, handshake);
    if events.len() > 0 {
        let earlier = events.drop_last();
        let last = events.len() - 1;
        let before = advance_all(start, earlier);
        let now = advance_all(start, events);
        law_acknowledges_what_was_taken(config, handshake, earlier);
        assert(earlier =~= events.take(last));
        if let Some(pending) = answers_for(now) {
            if answers_for(before) == Some(pending) {
                let i = choose|i: int|
                    {
                        &&& 0 <= i < earlier.len()
                        &&& #[trigger] earlier[i] == Event::Delivered(true)
                        &&& advance_all(start, earlier.take(i)) matches Served::Running(
                            NextView::Deliver(batch, state),
                        ) && state == pending
                    };
                assert(events[i] == Event::Delivered(true));
                assert(events.take(i) =~= earlier.take(i));
            } else {
                assert(events[last] == Event::Delivered(true));
            }
        }
    }
}

/// A server that is told to stop, or fails to accept, listens no more, and knows of no
/// other connections than before; one that accepts a connection serves it, and counts
/// it until it ends.
pub proof fn law_accepting(server: ServerView)
    ensures
        accept_step(server, AcceptEvent::Accepted) == (AcceptStep::Serve {
            config: server.config,
            handshake: server.handshake,
        }),
        accept_step(server, AcceptEvent::Shutdown) == AcceptStep::Stop,
        accept_step(server, AcceptEvent::Failed) == AcceptStep::Stop,
        after_accept(server, AcceptEvent::Shutdown) == server,
        after_accept(server, AcceptEvent::Failed) == server,
        after_accept(server, AcceptEvent::Accepted).active == (if server.active < usize::MAX {
            server.active + 1
        } else {
            0
        }),
        after_end(server).active == (if server.active > 0 {
            server.active - 1
        } else {
            usize::MAX as int
        }),
{
    let m = usize::MAX + 1;
    if server.active < usize::MAX {
        lemma_small_mod((server.active + 1) as nat, m as nat);
    } else {
        lemma_fundamental_div_mod_converse(m, m, 1, 0);
    }
    if server.active > 0 {
        lemma_small_mod((server.active - 1) as nat, m as nat);
    } else {
        lemma_fundamental_div_mod_converse(-1, m, -1, usize::MAX as int);
    }
}

} // verus!
