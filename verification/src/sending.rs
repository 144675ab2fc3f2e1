//! What holds of sending a batch, whatever the transport and the server do: what goes
//! out, what counts as success, and what is left of the client.

use vstd::prelude::*;

use crate::client::{after_feed, after_flush, after_reply, encoded_len, event_frames, fit};
use crate::client::{lemma_encoded_len, send_start, Client, FeedingView};
use crate::client::{ReplyView, RestView, SendStepView, SentView, WriteOutcomeView};
use crate::error::ErrorView;
use crate::exchange::{after_feeds, events_within, law_plan, plan};
use crate::frame::{decoded, wire, wire_all, Decoded, FrameView, DEFAULT_MAX_FRAME_SIZE};
use crate::laws::{decoded_all, law_back_to_back, law_reads_json, lemma_reads_back, reads_back};
use crate::laws::{law_format, law_malformed, within};

verus! {

/// Whether `a` and `b` have the same settings.
pub open spec fn same_settings(a: Client, b: Client) -> bool {
    &&& a.compression_level == b.compression_level
    &&& a.write_timeout == b.write_timeout
    &&& a.ack_timeout == b.ack_timeout
}

/// A batch fits where a window can count its events and a buffer can hold their
/// frames, 10 bytes and the payload each; nothing else is asked of it.
pub proof fn law_fit(events: Seq<Seq<u8>>)
    ensures
        fit(events) <==> events.len() <= 0xffff_ffff && wire_all(event_frames(events)).len()
            <= isize::MAX,
        events.len() == 0 ==> fit(events),
        encoded_len(events) == wire_all(event_frames(events)).len(),
        events.len() > 0 ==> encoded_len(events) == encoded_len(events.drop_last()) + 10
            + events.last().len(),
{
    lemma_encoded_len(events);
}

/// Events are numbered from 1 on, in order, and carried as they are.
pub proof fn law_numbered(events: Seq<Seq<u8>>, i: int)
    requires
        0 <= i < events.len() <= u32::MAX,
    ensures
        event_frames(events).len() == events.len(),
        event_frames(events)[i] matches FrameView::Json { seq, data } && seq == i + 1 && data
            == events[i],
{
}

/// How a batch begins. A client whose connection is good sends the number of events
/// first, and for none it sends nothing and is done. One whose connection is not good
/// sends nothing, and fails.
pub proof fn law_begins(client: Client, events: Seq<Seq<u8>>)
    requires
        events.len() <= u32::MAX,
    ensures
        ({
            let step = send_start(client, events);
            &&& !client.usable ==> step == SendStepView::Done(
                client,
                Err(ErrorView::ConnectionClosed),
            )
            &&& client.usable && events.len() == 0 ==> step == SendStepView::Done(client, Ok(0))
            &&& client.usable && events.len() > 0 ==> (step matches SendStepView::Feed(
                FrameView::Window(n),
                state,
            ) && n == events.len() && state.n == n && state.client == client)
        }),
{
}

/// What goes out for a batch, write by write: its number of events; and then, from a
/// client that compresses, one compressed frame, from which the events can be read
/// back; or, from one that does not, the events one by one, numbered from 1 on. After
/// that the transport is flushed, and a reply is waited for.
pub proof fn law_sends(client: Client, events: Seq<Seq<u8>>, k: nat, max: usize)
    requires
        client.usable,
        0 < events.len() <= u32::MAX,
        client.compression_level > 0 || events_within(events, 16_777_216),
        events_within(events, max),
    ensures
        ({
            let step = after_feeds(send_start(client, events), k);
            let sent = SentView { client, n: events.len() as u32 };
            &&& k == 0 ==> (step matches SendStepView::Feed(FrameView::Window(n), _) && n
                == events.len())
            &&& client.compression_level > 0 && k == 1 ==> (step matches SendStepView::Feed(
                FrameView::Compressed(inner),
                _,
            ) && inner == wire_all(event_frames(events)) && decoded_all(inner, max)
                == event_frames(events))
            &&& client.compression_level > 0 && k == 2 ==> step == SendStepView::Flush(sent)
            &&& client.compression_level == 0 && 1 <= k <= events.len() ==> (
            step matches SendStepView::Feed(FrameView::Json { seq, data }, _) && seq == k && data
                == events[k - 1])
            &&& client.compression_level == 0 && k == events.len() + 1 ==> step
                == SendStepView::Flush(sent)
            &&& after_flush(sent, WriteOutcomeView::Written) == SendStepView::AwaitReply(sent)
        }),
{
    if k <= plan(client, events).len() {
        law_plan(client, events, k);
    }
    let frames = event_frames(events);
    assert forall|i: int| 0 <= i < frames.len() implies within(#[trigger] frames[i], max)
        && reads_back(frames[i]) by {
        lemma_reads_back(frames[i]);
        assert(events[i].len() <= max);
    }
    law_back_to_back(frames, Seq::empty(), max);
    assert(wire_all(frames) + Seq::<u8>::empty() =~= wire_all(frames));
}

/// An event of more than 16 MiB that is to go out by itself is not sent. The events
/// before it are; then sending fails with its size, and the connection, in the middle
/// of a window, is no good any more.
pub proof fn law_too_large(client: Client, events: Seq<Seq<u8>>, k: nat)
    requires
        client.usable,
        client.compression_level == 0,
        k < events.len() <= u32::MAX,
        events_within(events.take(k as int), 16_777_216),
        16_777_216 < events[k as int].len() <= u32::MAX,
    ensures
        after_feeds(send_start(client, events), k + 1) matches SendStepView::Done(c, Err(e)) && e
            == (ErrorView::FrameTooLarge {
            size: events[k as int].len() as usize,
            max: 16_777_216,
        }) && !c.usable && same_settings(c, client),
{
    lemma_feeds_prefix(client, events, k);
    let left = event_frames(events).skip(k as int);
    let data = events[k as int];
    let seq = (k + 1) as u32;
    assert(left[0] == (FrameView::Json { seq, data }));
    lemma_oversize(seq, data, wire_all(left.drop_first()));
}

proof fn lemma_oversize(seq: u32, data: Seq<u8>, following: Seq<u8>)
    requires
        DEFAULT_MAX_FRAME_SIZE < data.len() <= u32::MAX,
    ensures
        decoded(
            wire(FrameView::Json { seq, data }) + following,
            DEFAULT_MAX_FRAME_SIZE,
        ) == Decoded::Malformed(
            ErrorView::FrameTooLarge { size: data.len() as usize, max: DEFAULT_MAX_FRAME_SIZE },
            0,
        ),
{
    let bytes = wire(FrameView::Json { seq, data });
    let head = bytes.take(10);
    let rest = bytes.skip(10) + following;
    law_format(seq, data);
    law_reads_json(head, data, rest, DEFAULT_MAX_FRAME_SIZE);
    assert(head + rest =~= bytes + following);
}

proof fn lemma_feeds_prefix(client: Client, events: Seq<Seq<u8>>, k: nat)
    requires
        client.usable,
        client.compression_level == 0,
        k < events.len(),
        events_within(events.take(k as int), DEFAULT_MAX_FRAME_SIZE),
    ensures
        after_feeds(send_start(client, events), k) matches SendStepView::Feed(_, state) && state
            == (FeedingView {
            client,
            n: events.len() as u32,
            rest: RestView::Frames(wire_all(event_frames(events).skip(k as int))),
        }),
    decreases k,
{
    let frames = event_frames(events);
    if k == 0 {
        assert(frames.skip(0) =~= frames);
    } else {
        let before = (k - 1) as nat;
        assert(events.take(k as int)[k - 1] == events[k - 1]);
        assert forall|i: int| 0 <= i < before implies (#[trigger] events.take(
            before as int,
        )[i]).len() <= DEFAULT_MAX_FRAME_SIZE && events.take(before as int)[i].len()
            <= u32::MAX by {
            assert(events.take(k as int)[i] == events.take(before as int)[i]);
        }
        lemma_feeds_prefix(client, events, before);
        let left = frames.skip(k - 1);
        let following = wire_all(left.drop_first());
        assert(left.drop_first() =~= frames.skip(k as int));
        lemma_reads_back(left[0]);
        assert(within(left[0], DEFAULT_MAX_FRAME_SIZE));
        assert(decoded(wire(left[0]) + following, DEFAULT_MAX_FRAME_SIZE) == Decoded::Complete(
            left[0],
            wire(left[0]).len(),
        ));
        assert((wire(left[0]) + following).skip(wire(left[0]).len() as int) =~= following);
    }
}

/// After a write, the next frame of the batch goes out: the compressed one, after which
/// nothing is left; or the one that the bytes which are left begin with, after which
/// they are gone. Bytes that are no frame end the batch in their error, and where no
/// frame is left the transport is flushed.
pub proof fn law_next_frame(client: Client, n: u32, payload: Seq<u8>)
    ensures
        ({
            let packed = FeedingView { client, n, rest: RestView::Compressed(payload) };
            let plain = FeedingView { client, n, rest: RestView::Frames(payload) };
            let nothing = FeedingView { client, n, rest: RestView::Frames(Seq::empty()) };
            &&& after_feed(packed, WriteOutcomeView::Written) == SendStepView::Feed(
                FrameView::Compressed(payload),
                nothing,
            )
            &&& after_feed(nothing, WriteOutcomeView::Written) == SendStepView::Flush(
                SentView { client, n },
            )
            &&& match decoded(payload, 16_777_216) {
                Decoded::Complete(frame, k) => after_feed(plain, WriteOutcomeView::Written)
                    == SendStepView::Feed(
                    frame,
                    FeedingView { client, n, rest: RestView::Frames(payload.skip(k as int)) },
                ),
                Decoded::Incomplete => after_feed(plain, WriteOutcomeView::Written)
                    == SendStepView::Flush(SentView { client, n }),
                Decoded::Malformed(e, _) => after_feed(
                    plain,
                    WriteOutcomeView::Written,
                ) matches SendStepView::Done(c, Err(err)) && err == e && !c.usable
                    && same_settings(c, client),
            }
        }),
{
    law_malformed(payload, DEFAULT_MAX_FRAME_SIZE);
}

/// What counts as success. The waiting ends well by an acknowledgement of all `n`
/// events, or more, and by nothing else; what is acknowledged is `n`. An
/// acknowledgement of fewer is waited past. Every other reply is an error: the end of
/// the stream is, whatever the settings; so is a failure, a timeout, and a frame that
/// is no acknowledgement.
pub proof fn law_success(state: SentView, seq: u32, frame: FrameView, e: ErrorView)
    ensures
        after_reply(state, ReplyView::Frame(FrameView::Ack(seq))) == if seq >= state.n {
            SendStepView::Done(state.client, Ok(state.n))
        } else {
            SendStepView::AwaitReply(state)
        },
        after_reply(state, ReplyView::Closed) == SendStepView::Done(
            state.client,
            Err(ErrorView::ConnectionClosed),
        ),
        after_reply(state, ReplyView::TimedOut) matches SendStepView::Done(
            _,
            Err(ErrorView::AckTimeout),
        ),
        frame !is Ack ==> (after_reply(state, ReplyView::Frame(frame)) matches SendStepView::Done(
            _,
            Err(ErrorView::UnexpectedFrame(text)),
        ) && text == "expected Ack"@),
        after_reply(state, ReplyView::Failed(e)) matches SendStepView::Done(_, Err(err)) && err
            == e,
{
}

/// What is left of a client after a failure: its settings, always. Its connection is
/// no good after a timeout, after a frame that is out of place, and after bytes that
/// are no frame, too large, or do not inflate; any other failure leaves it as it was.
pub proof fn law_left_over(
    feeding: FeedingView,
    sent: SentView,
    reply: ReplyView,
    outcome: WriteOutcomeView,
)
    ensures
        after_reply(sent, reply) matches SendStepView::Done(c, _) ==> {
            &&& same_settings(c, sent.client)
            &&& c.usable == (sent.client.usable && match reply {
                ReplyView::TimedOut => false,
                ReplyView::Frame(frame) => frame is Ack,
                ReplyView::Failed(e) => !(e is InvalidFrame || e is FrameTooLarge || e
                    is Compression),
                ReplyView::Closed => true,
            })
        },
        match outcome {
            WriteOutcomeView::TimedOut => {
                &&& after_feed(feeding, outcome) matches SendStepView::Done(
                    c,
                    Err(ErrorView::WriteTimeout),
                ) && !c.usable && same_settings(c, feeding.client)
                &&& after_flush(sent, outcome) matches SendStepView::Done(
                    c,
                    Err(ErrorView::WriteTimeout),
                ) && !c.usable && same_settings(c, sent.client)
            },
            WriteOutcomeView::Failed(e) => {
                let good = !(e is InvalidFrame || e is FrameTooLarge || e is Compression);
                &&& after_feed(feeding, outcome) matches SendStepView::Done(c, Err(err)) && err == e
                    && same_settings(c, feeding.client) && c.usable == (feeding.client.usable
                    && good)
                &&& after_flush(sent, outcome) matches SendStepView::Done(c, Err(err)) && err == e
                    && same_settings(c, sent.client) && c.usable == (sent.client.usable && good)
            },
            WriteOutcomeView::Written => after_flush(sent, outcome) == SendStepView::AwaitReply(
                sent,
            ),
        },
{
}

/// What a client that sends is told.
pub enum SendEvent {
    Write(WriteOutcomeView),
    Reply(ReplyView),
}

/// What `event` makes of `step`, which asked for it.
pub open spec fn send_advance(step: SendStepView, event: SendEvent) -> SendStepView {
    match (step, event) {
        (SendStepView::Feed(_, state), SendEvent::Write(outcome)) => after_feed(state, outcome),
        (SendStepView::Flush(state), SendEvent::Write(outcome)) => after_flush(state, outcome),
        (SendStepView::AwaitReply(state), SendEvent::Reply(reply)) => after_reply(state, reply),
        _ => step,
    }
}

/// What `events` make of `step`, one after the other.
pub open spec fn send_advance_all(step: SendStepView, events: Seq<SendEvent>) -> SendStepView
    decreases events.len(),
{
    if events.len() == 0 {
        step
    } else {
        send_advance(send_advance_all(step, events.drop_last()), events.last())
    }
}

/// How many events the batch holds that `step` is about.
pub open spec fn batch_size(step: SendStepView) -> Option<u32> {
    match step {
        SendStepView::Feed(_, state) => Some(state.n),
        SendStepView::Flush(state) => Some(state.n),
        SendStepView::AwaitReply(state) => Some(state.n),
        SendStepView::Done(_, _) => None,
    }
}

/// Nothing counts as sent that the server has not acknowledged. Whatever happens while
/// a batch of `n` events is sent, it ends in success only by an acknowledgement of `n`
/// events or more, among all that came; and then all `n` are acknowledged.
pub proof fn law_acknowledged_by_the_server(
    client: Client,
    batch: Seq<Seq<u8>>,
    events: Seq<SendEvent>,
)
    requires
        0 < batch.len() <= u32::MAX,
    ensures
        ({
            let now = send_advance_all(send_start(client, batch), events);
            &&& batch_size(now) matches Some(n) ==> n == batch.len()
            &&& now matches SendStepView::Done(_, Ok(n)) ==> {
                &&& n == batch.len()
                &&& exists|i: int|
                    0 <= i < events.len() && (#[trigger] events[i] matches SendEvent::Reply(
                        ReplyView::Frame(FrameView::Ack(seq)),
                    ) && seq >= batch.len())
            }
        }),
    decreases events.len(),
{
    if events.len() > 0 {
        let earlier = events.drop_last();
        let last = events.len() - 1;
        law_acknowledged_by_the_server(client, batch, earlier);
        let before = send_advance_all(send_start(client, batch), earlier);
        let now = send_advance_all(send_start(client, batch), events);
        if let SendStepView::Done(_, Ok(n)) = now {
            if before is Done {
                let i = choose|i: int|
                    0 <= i < earlier.len() && (#[trigger] earlier[i] matches SendEvent::Reply(
                        ReplyView::Frame(FrameView::Ack(seq)),
                    ) && seq >= batch.len());
                assert(events[i] == earlier[i]);
            } else {
                assert(events[last] matches SendEvent::Reply(
                    ReplyView::Frame(FrameView::Ack(seq)),
                ) && seq >= batch.len());
            }
        }
    }
}

} // verus!
