//! The course of a connection, seen from the server.
//!
//! A connection is a sequence of states. Each state says what is to be done next:
//! read a frame, hand a batch to its consumer, wait for the acknowledgement, write
//! a frame. What came of it leads to the next state. Nothing here reads or writes.

use bytes::{Bytes, BytesMut};
use std::time::Duration;
use vstd::prelude::*;

use crate::buffer::{all_contents, buffer_contents, buffer_from, buffer_slice};
use crate::buffer::{bytes_contents, bytes_slice};
use crate::error::{Error, ErrorView};
use crate::frame::{decoded, Decoded, Frame, FrameView};
use crate::laws::law_progress;
use crate::server::{Batch, BatchView};

verus! {

/// What holds for every connection of a server.
#[derive(Debug, Clone, Copy)]
pub struct ConnectionConfig {
    /// The largest payload of a single frame, in bytes.
    pub max_frame_size: usize,
    /// How long a batch may be held before the client is told that the server is
    /// still there.
    pub keepalive: Option<Duration>,
}

/// What has arrived of a batch.
struct Collected {
    window: u32,
    events: Vec<Bytes>,
    last_seq: u32,
}

/// What has arrived of a batch: how many events it is to hold, the payloads so
/// far, and the sequence number of the last one, 0 where there is none.
pub struct CollectedView {
    pub window: u32,
    pub events: Seq<Seq<u8>>,
    pub last_seq: u32,
}

impl View for Collected {
    type V = CollectedView;

    closed spec fn view(&self) -> CollectedView {
        CollectedView {
            window: self.window,
            events: all_contents(self.events@),
            last_seq: self.last_seq,
        }
    }
}

/// What `c` becomes with one more event: sequence numbers have to increase.
pub open spec fn take_json(c: CollectedView, seq: u32, data: Seq<u8>) -> Result<
    CollectedView,
    ErrorView,
> {
    if seq <= c.last_seq {
        Err(ErrorView::SeqOutOfOrder { got: seq, prev: c.last_seq })
    } else {
        Ok(CollectedView { window: c.window, events: c.events.push(data), last_seq: seq })
    }
}

/// What `c` becomes with the events in `inner`, the contents of a compressed frame:
/// `J` frames alone, up to the end of the bytes or of the window. Where the window
/// ends first, the bytes that are left are not looked at.
pub open spec fn take_inner(c: CollectedView, inner: Seq<u8>, max: usize) -> Result<
    CollectedView,
    ErrorView,
>
    decreases inner.len(),
{
    if inner.len() == 0 || c.events.len() >= c.window {
        Ok(c)
    } else {
        match decoded(inner, max) {
            Decoded::Incomplete => Err(ErrorView::InvalidFrame("compressed payload truncated"@)),
            Decoded::Malformed(e, _) => Err(e),
            Decoded::Complete(FrameView::Json { seq, data }, n) => match take_json(c, seq, data) {
                Err(e) => Err(e),
                Ok(more) => if 0 < n <= inner.len() {
                    take_inner(more, inner.skip(n as int), max)
                } else {
                    Ok(more)
                },
            },
            Decoded::Complete(_, _) => Err(
                ErrorView::UnexpectedFrame("compressed payload must contain only J frames"@),
            ),
        }
    }
}

/// What `c` becomes with what `frame` holds.
pub open spec fn take_frame(c: CollectedView, frame: FrameView, max: usize) -> Result<
    CollectedView,
    ErrorView,
> {
    match frame {
        FrameView::Json { seq, data } => take_json(c, seq, data),
        FrameView::Compressed(inner) => take_inner(c, inner, max),
        _ => Err(ErrorView::UnexpectedFrame("expected J or C inside window"@)),
    }
}

impl Collected {
    fn new(window: u32) -> (c: Collected)
        ensures
            c@ == (CollectedView { window, events: Seq::empty(), last_seq: 0 }),
    {
        let c = Collected { window, events: Vec::new(), last_seq: 0 };
        assert(c@.events =~= Seq::empty());
        c
    }

    fn is_full(&self) -> (full: bool)
        ensures
            full == (self@.events.len() >= self@.window),
    {
        self.events.len() >= self.window as usize
    }

    fn take_json(&mut self, seq: u32, data: Bytes) -> (r: Result<(), Error>)
        ensures
            match take_json(old(self)@, seq, bytes_contents(data)) {
                Ok(c) => r is Ok && final(self)@ == c,
                Err(e) => r matches Err(err) && err@ == e,
            },
    {
        if seq <= self.last_seq {
            return Err(Error::SeqOutOfOrder { got: seq, prev: self.last_seq });
        }
        let ghost before = self@.events;
        self.events.push(data);
        self.last_seq = seq;
        assert(self@.events =~= before.push(bytes_contents(data)));
        Ok(())
    }

    fn take_inner(&mut self, inner: &Bytes, max: usize) -> (r: Result<(), Error>)
        ensures
            match take_inner(old(self)@, bytes_contents(*inner), max) {
                Ok(c) => r is Ok && final(self)@ == c,
                Err(e) => r matches Err(err) && err@ == e,
            },
    {
        let mut buf: BytesMut = buffer_from(bytes_slice(inner));
        let ghost expected = take_inner(self@, bytes_contents(*inner), max);
        while buffer_slice(&buf).len() > 0 && !self.is_full()
            invariant
                expected == take_inner(self@, buffer_contents(buf), max),
                expected == take_inner(old(self)@, bytes_contents(*inner), max),
            decreases buffer_contents(buf).len(),
        {
            proof {
                law_progress(buffer_contents(buf), max);
            }
            match Frame::decode_with_limit(&mut buf, max) {
                Ok(Some(Frame::Json { seq, data })) => {
                    match self.take_json(seq, data) {
                        Ok(()) => {},
                        Err(e) => {
                            return Err(e);
                        },
                    }
                },
                Ok(Some(_)) => {
                    return Err(
                        Error::UnexpectedFrame("compressed payload must contain only J frames"),
                    );
                },
                Ok(None) => {
                    return Err(Error::InvalidFrame("compressed payload truncated"));
                },
                Err(e) => {
                    return Err(e);
                },
            }
        }
        Ok(())
    }

    fn take_frame(&mut self, frame: Frame, max: usize) -> (r: Result<(), Error>)
        ensures
            match take_frame(old(self)@, frame@, max) {
                Ok(c) => r is Ok && final(self)@ == c,
                Err(e) => r matches Err(err) && err@ == e,
            },
    {
        match frame {
            Frame::Json { seq, data } => self.take_json(seq, data),
            Frame::Compressed(inner) => self.take_inner(&inner, max),
            Frame::Window(_) | Frame::Ack(_) => Err(
                Error::UnexpectedFrame("expected J or C inside window"),
            ),
        }
    }
}

/// What reading a frame came to.
pub enum Input {
    Frame(Frame),
    /// The bytes are no frame, or the transport failed.
    Failed(Error),
    EndOfStream,
}

/// An [`Input`], by its view.
pub enum InputView {
    Frame(FrameView),
    Failed(ErrorView),
    EndOfStream,
}

impl View for Input {
    type V = InputView;

    open spec fn view(&self) -> InputView {
        match *self {
            Input::Frame(frame) => InputView::Frame(frame@),
            Input::Failed(e) => InputView::Failed(e@),
            Input::EndOfStream => InputView::EndOfStream,
        }
    }
}

/// What waiting for the acknowledgement of a batch came to.
pub enum AckEvent {
    /// The consumer acknowledges this sequence number.
    Acked(u32),
    /// The batch is gone, and nothing was heard of it.
    Lost,
    /// The keepalive interval has passed.
    Elapsed,
}

/// A connection that waits for a frame.
pub struct Reading {
    config: ConnectionConfig,
    batch: Option<Collected>,
}

/// A [`Reading`]: what has arrived of a batch, `None` between two batches.
pub struct ReadingView {
    pub config: ConnectionConfig,
    pub batch: Option<CollectedView>,
}

impl View for Reading {
    type V = ReadingView;

    closed spec fn view(&self) -> ReadingView {
        ReadingView {
            config: self.config,
            batch: match self.batch {
                Some(c) => Some(c@),
                None => None,
            },
        }
    }
}

/// A connection that has handed a batch to its consumer.
pub struct Delivering {
    config: ConnectionConfig,
    last_seq: u32,
}

/// A connection that waits for the acknowledgement of a batch.
pub struct AwaitingAck {
    config: ConnectionConfig,
    last_seq: u32,
}

/// A connection that writes an acknowledgement, and then waits on where
/// `keepalive` is set.
pub struct Writing {
    config: ConnectionConfig,
    last_seq: u32,
    keepalive: bool,
}

/// A [`Delivering`] or an [`AwaitingAck`]: the last sequence number of the batch.
pub struct PendingView {
    pub config: ConnectionConfig,
    pub last_seq: u32,
}

impl View for Delivering {
    type V = PendingView;

    closed spec fn view(&self) -> PendingView {
        PendingView { config: self.config, last_seq: self.last_seq }
    }
}

impl View for AwaitingAck {
    type V = PendingView;

    closed spec fn view(&self) -> PendingView {
        PendingView { config: self.config, last_seq: self.last_seq }
    }
}

/// A [`Writing`].
pub struct WritingView {
    pub pending: PendingView,
    pub keepalive: bool,
}

impl View for Writing {
    type V = WritingView;

    closed spec fn view(&self) -> WritingView {
        WritingView {
            pending: PendingView { config: self.config, last_seq: self.last_seq },
            keepalive: self.keepalive,
        }
    }
}

/// What a connection has to do next.
pub enum Next {
    /// Read a frame.
    Read(Reading),
    /// Hand the batch to its consumer.
    Deliver(Batch, Delivering),
    /// Wait for the batch to be acknowledged, for the keepalive interval at most.
    AwaitAck(AwaitingAck),
    /// Write the frame, and flush.
    Write(Frame, Writing),
    /// Close the connection: it ended well, or in an error.
    Done(Result<(), Error>),
}

/// A [`Next`], by its view.
pub enum NextView {
    Read(ReadingView),
    Deliver(BatchView, PendingView),
    AwaitAck(PendingView),
    Write(FrameView, WritingView),
    Done(Result<(), ErrorView>),
}

impl View for Next {
    type V = NextView;

    open spec fn view(&self) -> NextView {
        match *self {
            Next::Read(state) => NextView::Read(state@),
            Next::Deliver(batch, state) => NextView::Deliver(batch@, state@),
            Next::AwaitAck(state) => NextView::AwaitAck(state@),
            Next::Write(frame, state) => NextView::Write(frame@, state@),
            Next::Done(Ok(())) => NextView::Done(Ok(())),
            Next::Done(Err(e)) => NextView::Done(Err(e@)),
        }
    }
}

/// The state between two batches.
pub open spec fn between_batches(config: ConnectionConfig) -> NextView {
    NextView::Read(ReadingView { config, batch: None })
}

/// A batch that holds as many events as its window says is handed on; one that
/// does not waits for more frames.
pub open spec fn collected(config: ConnectionConfig, c: CollectedView) -> NextView {
    if c.events.len() < c.window {
        NextView::Read(ReadingView { config, batch: Some(c) })
    } else {
        NextView::Deliver(
            BatchView { events: c.events, last_seq: c.last_seq, owes_ack: true },
            PendingView { config, last_seq: c.last_seq },
        )
    }
}

/// Where reading a frame leads. A batch begins with a window; the stream may end
/// before it, and nowhere else.
pub open spec fn after_read(state: ReadingView, input: InputView) -> NextView {
    match (input, state.batch) {
        (InputView::Frame(FrameView::Window(n)), None) => collected(
            state.config,
            CollectedView { window: n, events: Seq::empty(), last_seq: 0 },
        ),
        (InputView::Frame(_), None) => NextView::Done(
            Err(ErrorView::UnexpectedFrame("expected Window at batch start"@)),
        ),
        (InputView::Frame(frame), Some(c)) => match take_frame(
            c,
            frame,
            state.config.max_frame_size,
        ) {
            Ok(more) => collected(state.config, more),
            Err(e) => NextView::Done(Err(e)),
        },
        (InputView::Failed(e), _) => NextView::Done(Err(e)),
        (InputView::EndOfStream, None) => NextView::Done(Ok(())),
        (InputView::EndOfStream, Some(_)) => NextView::Done(Err(ErrorView::ConnectionClosed)),
    }
}

/// Where handing on a batch leads. With nobody left to take it, the server is
/// shutting down.
pub open spec fn after_delivery(state: PendingView, delivered: bool) -> NextView {
    if delivered {
        NextView::AwaitAck(state)
    } else {
        NextView::Done(Ok(()))
    }
}

/// Where waiting for the acknowledgement leads. A batch that is lost counts as
/// acknowledged. `Ack(0)` tells the client that the server is still there, where
/// that is wanted at all.
pub open spec fn after_wait(state: PendingView, event: AckEvent) -> NextView {
    match event {
        AckEvent::Acked(seq) => NextView::Write(
            FrameView::Ack(seq),
            WritingView { pending: state, keepalive: false },
        ),
        AckEvent::Lost => NextView::Write(
            FrameView::Ack(state.last_seq),
            WritingView { pending: state, keepalive: false },
        ),
        AckEvent::Elapsed => if state.config.keepalive is Some {
            NextView::Write(
                FrameView::Ack(0),
                WritingView { pending: state, keepalive: true },
            )
        } else {
            NextView::AwaitAck(state)
        },
    }
}

/// Where writing an acknowledgement leads.
pub open spec fn after_write(state: WritingView, outcome: Result<(), ErrorView>) -> NextView {
    match outcome {
        Err(e) => NextView::Done(Err(e)),
        Ok(()) => if state.keepalive {
            NextView::AwaitAck(state.pending)
        } else {
            between_batches(state.pending.config)
        },
    }
}

/// Begins a connection.
pub fn run_connection(config: ConnectionConfig) -> (next: Next)
    ensures
        next@ == between_batches(config),
{
    Next::Read(Reading { config, batch: None })
}

/// How a connection begins that is to be secured, once the TLS handshake is over.
pub open spec fn after_tls(
    config: ConnectionConfig,
    handshake: Result<(), std::io::Error>,
) -> NextView {
    match handshake {
        Ok(()) => between_batches(config),
        Err(e) => NextView::Done(Err(ErrorView::Io(e))),
    }
}

/// Begins a connection that is to be secured, with what the TLS handshake came to.
pub fn run_secured(config: ConnectionConfig, handshake: Result<(), std::io::Error>) -> (next: Next)
    ensures
        next@ == after_tls(config, handshake),
{
    match handshake {
        Ok(()) => run_connection(config),
        Err(e) => Next::Done(Err(Error::Io(e))),
    }
}

fn collected_next(config: ConnectionConfig, c: Collected) -> (next: Next)
    ensures
        next@ == collected(config, c@),
{
    if c.is_full() {
        Next::Deliver(
            Batch::new(c.events, c.last_seq),
            Delivering { config, last_seq: c.last_seq },
        )
    } else {
        Next::Read(Reading { config, batch: Some(c) })
    }
}

impl Reading {
    /// Goes on with what reading a frame came to.
    pub fn resume(self, input: Input) -> (next: Next)
        ensures
            next@ == after_read(self@, input@),
    {
        let config = self.config;
        match input {
            Input::Failed(e) => Next::Done(Err(e)),
            Input::EndOfStream => match self.batch {
                None => Next::Done(Ok(())),
                Some(_) => Next::Done(Err(Error::ConnectionClosed)),
            },
            Input::Frame(frame) => match self.batch {
                None => match frame {
                    Frame::Window(n) => collected_next(config, Collected::new(n)),
                    _ => Next::Done(Err(Error::UnexpectedFrame("expected Window at batch start"))),
                },
                Some(batch) => {
                    let mut batch = batch;
                    match batch.take_frame(frame, config.max_frame_size) {
                        Ok(()) => collected_next(config, batch),
                        Err(e) => Next::Done(Err(e)),
                    }
                },
            },
        }
    }
}

impl Delivering {
    /// Goes on, `delivered` telling whether there was anyone to take the batch.
    pub fn resume(self, delivered: bool) -> (next: Next)
        ensures
            next@ == after_delivery(self@, delivered),
    {
        if delivered {
            Next::AwaitAck(AwaitingAck { config: self.config, last_seq: self.last_seq })
        } else {
            Next::Done(Ok(()))
        }
    }
}

impl AwaitingAck {
    /// How long to wait before the client is told that the server is still there;
    /// `None` is as long as it takes.
    pub fn keepalive(&self) -> (interval: Option<Duration>)
        ensures
            interval == self@.config.keepalive,
    {
        self.config.keepalive
    }

    /// Goes on with what the waiting came to.
    pub fn resume(self, event: AckEvent) -> (next: Next)
        ensures
            next@ == after_wait(self@, event),
    {
        let config = self.config;
        let last_seq: u32 = self.last_seq;
        match event {
            AckEvent::Acked(seq) => Next::Write(
                Frame::Ack(seq),
                Writing { config, last_seq, keepalive: false },
            ),
            AckEvent::Lost => Next::Write(
                Frame::Ack(last_seq),
                Writing { config, last_seq, keepalive: false },
            ),
            AckEvent::Elapsed => match config.keepalive {
                Some(_) => Next::Write(
                    Frame::Ack(0),
                    Writing { config, last_seq, keepalive: true },
                ),
                None => Next::AwaitAck(self),
            },
        }
    }
}

impl Writing {
    /// Goes on with what the writing came to.
    pub fn resume(self, outcome: Result<(), Error>) -> (next: Next)
        ensures
            match outcome {
                Ok(()) => next@ == after_write(self@, Ok(())),
                Err(e) => next@ == after_write(self@, Err(e@)),
            },
    {
        match outcome {
            Err(e) => Next::Done(Err(e)),
            Ok(()) => if self.keepalive {
                Next::AwaitAck(AwaitingAck { config: self.config, last_seq: self.last_seq })
            } else {
                run_connection(self.config)
            },
        }
    }
}

} // verus!
