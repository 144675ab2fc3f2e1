//! The client's side: how a batch of events is sent.
//!
//! Sending is a sequence of states. Each state says what is to be done next: hand a
//! frame to the transport, flush it, wait for a reply. What came of it leads to the
//! next state. Nothing here reads or writes.

use bytes::{Bytes, BytesMut};
use serde_json::Error as JsonError;
use std::time::Duration;
use tokio_rustls::TlsConnector;
use vstd::prelude::*;
use vstd::string::to_string_from_display_ensures;

use crate::buffer::{all_contents, buffer_contents, bytes_contents, bytes_from, bytes_slice};
use crate::connect::{connect_start, start_connecting, ConnectStep};
use crate::error::{Error, ErrorView};
use crate::frame::{decoded, lemma_wire_all_push, wire, wire_all};
use crate::frame::{Decoded, Frame, FrameView, DEFAULT_MAX_FRAME_SIZE};
use crate::time::{duration_nanos, duration_of_secs};

verus! {

#[verifier::external_type_specification]
#[verifier::external_body]
pub struct ExTlsConnector(TlsConnector);

#[verifier::external_type_specification]
#[verifier::external_body]
pub struct ExJsonError(JsonError);

/// How a client is to behave.
pub struct ClientBuilder {
    /// 0 sends events uncompressed; any other level compresses them.
    pub compression_level: u32,
    pub write_timeout: Option<Duration>,
    pub ack_timeout: Option<Duration>,
    /// The first and the last of the local ports that may be used.
    pub local_port_range: Option<(u16, u16)>,
    /// How to secure the connection, and the name that the server must prove.
    pub tls: Option<(TlsConnector, String)>,
}

impl Default for ClientBuilder {
    fn default() -> (b: ClientBuilder)
        ensures
            b.compression_level == 3,
            b.write_timeout is None,
            b.ack_timeout matches Some(d) && duration_nanos(d) == 30_000_000_000,
            b.local_port_range is None,
            b.tls is None,
    {
        ClientBuilder {
            compression_level: 3,
            write_timeout: None,
            ack_timeout: Some(duration_of_secs(30)),
            local_port_range: None,
            tls: None,
        }
    }
}

impl ClientBuilder {
    pub fn compression_level(self, level: u32) -> (b: ClientBuilder)
        ensures
            b == (ClientBuilder { compression_level: level, ..self }),
    {
        ClientBuilder { compression_level: level, ..self }
    }

    pub fn write_timeout(self, d: Duration) -> (b: ClientBuilder)
        ensures
            b == (ClientBuilder { write_timeout: Some(d), ..self }),
    {
        ClientBuilder { write_timeout: Some(d), ..self }
    }

    pub fn ack_timeout(self, d: Duration) -> (b: ClientBuilder)
        ensures
            b == (ClientBuilder { ack_timeout: Some(d), ..self }),
    {
        ClientBuilder { ack_timeout: Some(d), ..self }
    }

    pub fn local_port_range(self, start: u16, end: u16) -> (b: ClientBuilder)
        ensures
            b == (ClientBuilder { local_port_range: Some((start, end)), ..self }),
    {
        ClientBuilder { local_port_range: Some((start, end)), ..self }
    }

    pub fn tls(self, connector: TlsConnector, domain: String) -> (b: ClientBuilder)
        ensures
            b == (ClientBuilder { tls: Some((connector, domain)), ..self }),
    {
        ClientBuilder { tls: Some((connector, domain)), ..self }
    }

    /// Begins to connect.
    pub fn connect(self) -> (step: ConnectStep)
        ensures
            step@ == connect_start(self),
    {
        start_connecting(self)
    }
}

/// A connected client. There is one for each connection: sending a batch takes it,
/// and hands it back with the result.
#[derive(Debug)]
pub struct Client {
    /// 0 sends events uncompressed; any other level compresses them.
    pub compression_level: u32,
    /// How long a single frame may take to be written, and the rest to be flushed.
    pub write_timeout: Option<Duration>,
    /// How long the server may take between two acknowledgements.
    pub ack_timeout: Option<Duration>,
    /// Whether the connection is still good for another batch.
    pub usable: bool,
}

/// The frames that carry `events`: one `J` frame each, numbered from 1 on.
pub open spec fn event_frames(events: Seq<Seq<u8>>) -> Seq<FrameView> {
    Seq::new(
        events.len(),
        |i: int| FrameView::Json { seq: (i + 1) as u32, data: events[i] },
    )
}

/// How many bytes the frames that carry `events` take up.
pub open spec fn encoded_len(events: Seq<Seq<u8>>) -> nat
    decreases events.len(),
{
    if events.len() == 0 {
        0
    } else {
        encoded_len(events.drop_last()) + 10 + events.last().len()
    }
}

/// Whether a batch can hold `events`: a window counts them in 32 bits, and no
/// buffer outgrows `isize::MAX` bytes.
pub open spec fn fit(events: Seq<Seq<u8>>) -> bool {
    events.len() <= u32::MAX && encoded_len(events) <= isize::MAX
}

proof fn lemma_event_frames_push(events: Seq<Seq<u8>>, event: Seq<u8>)
    ensures
        wire_all(event_frames(events.push(event))) == wire_all(event_frames(events)) + wire(
            FrameView::Json { seq: (events.len() + 1) as u32, data: event },
        ),
{
    let frame = FrameView::Json { seq: (events.len() + 1) as u32, data: event };
    assert(event_frames(events.push(event)) =~= event_frames(events).push(frame));
    lemma_wire_all_push(event_frames(events), frame);
}

pub(crate) proof fn lemma_encoded_len(events: Seq<Seq<u8>>)
    ensures
        wire_all(event_frames(events)).len() == encoded_len(events),
    decreases events.len(),
{
    if events.len() > 0 {
        lemma_encoded_len(events.drop_last());
        lemma_event_frames_push(events.drop_last(), events.last());
        assert(events.drop_last().push(events.last()) =~= events);
    }
}

proof fn lemma_encoded_len_prefix(events: Seq<Seq<u8>>, i: int)
    requires
        0 <= i <= events.len(),
    ensures
        encoded_len(events.take(i)) <= encoded_len(events),
    decreases events.len() - i,
{
    if i < events.len() {
        lemma_encoded_len_prefix(events, i + 1);
        assert(events.take(i + 1).drop_last() =~= events.take(i));
    } else {
        assert(events.take(i) =~= events);
    }
}

/// Whether a batch can hold `events`.
pub fn fits(events: &[Bytes]) -> (b: bool)
    ensures
        b == fit(all_contents(events@)),
{
    if events.len() as u64 > u32::MAX as u64 {
        return false;
    }
    let most: usize = isize::MAX as usize;
    let ghost all = all_contents(events@);
    let mut total: usize = 0;
    let mut i: usize = 0;
    assert(all.take(0) =~= Seq::empty());
    while i < events.len()
        invariant
            i <= events.len() <= u32::MAX,
            all == all_contents(events@),
            most == isize::MAX,
            total == encoded_len(all.take(i as int)),
            total <= most,
        decreases events.len() - i,
    {
        let len: usize = bytes_slice(&events[i]).len();
        proof {
            assert(all.take(i + 1).drop_last() =~= all.take(i as int));
            lemma_encoded_len_prefix(all, i + 1);
        }
        if most - total < 10 || most - total - 10 < len {
            return false;
        }
        total = total + 10 + len;
        i = i + 1;
    }
    assert(all.take(i as int) =~= all);
    true
}

/// The payload of an event, out of what serializing it came to.
fn payload(serialized: Result<Vec<u8>, JsonError>) -> (r: Result<Bytes, Error>)
    ensures
        match serialized {
            Ok(json) => r matches Ok(b) && bytes_contents(b) == json@,
            Err(e) => r matches Err(Error::Serialization(text)) && to_string_from_display_ensures(
                &e,
                text,
            ),
        },
{
    match serialized {
        Ok(json) => Ok(bytes_from(json)),
        Err(e) => Err(Error::Serialization(e.to_string())),
    }
}

/// The payloads of events, in order, out of what serializing each of them came to. The
/// first one that could not be serialized stands for all.
pub fn payloads(serialized: Vec<Result<Vec<u8>, JsonError>>) -> (r: Result<Vec<Bytes>, Error>)
    ensures
        match r {
            Ok(events) => {
                &&& events@.len() == serialized@.len()
                &&& forall|i: int|
                    0 <= i < serialized@.len() ==> (#[trigger] serialized@[i] matches Ok(json)
                        && all_contents(events@)[i] == json@)
            },
            Err(e) => exists|i: int|
                {
                    &&& 0 <= i < serialized@.len()
                    &&& forall|j: int| 0 <= j < i ==> #[trigger] serialized@[j] is Ok
                    &&& #[trigger] serialized@[i] matches Err(cause)
                        && (e matches Error::Serialization(text)
                        && to_string_from_display_ensures(&cause, text))
                },
        },
{
    let ghost all = serialized@;
    let mut events: Vec<Bytes> = Vec::new();
    for item in iter: serialized
        invariant
            iter.seq() == all,
            events@.len() == iter.index(),
            forall|i: int|
                0 <= i < events@.len() ==> (#[trigger] all[i] matches Ok(json)
                    && all_contents(events@)[i] == json@),
    {
        let ghost k: int = iter.index();
        assert(item == all[k]);
        match payload(item) {
            Ok(event) => {
                let ghost before = all_contents(events@);
                events.push(event);
                assert(all_contents(events@) =~= before.push(bytes_contents(event)));
            },
            Err(e) => {
                assert(all[k] is Err);
                return Err(e);
            },
        }
    }
    Ok(events)
}

/// The events as `J` frames, one after the other.
fn encode_events(events: &[Bytes]) -> (payload: BytesMut)
    requires
        fit(all_contents(events@)),
    ensures
        buffer_contents(payload) == wire_all(event_frames(all_contents(events@))),
{
    let mut payload: BytesMut = BytesMut::new();
    let ghost all = all_contents(events@);
    let mut i: usize = 0;
    assert(event_frames(all.take(0)) =~= Seq::empty());
    while i < events.len()
        invariant
            i <= events.len(),
            all == all_contents(events@),
            fit(all),
            buffer_contents(payload) == wire_all(event_frames(all.take(i as int))),
        decreases events.len() - i,
    {
        let frame = Frame::Json { seq: i as u32 + 1, data: events[i].clone() };
        proof {
            assert(all.take(i + 1) =~= all.take(i as int).push(all[i as int]));
            lemma_event_frames_push(all.take(i as int), all[i as int]);
            lemma_encoded_len(all.take(i + 1));
            lemma_encoded_len_prefix(all, i + 1);
        }
        frame.encode(&mut payload);
        i = i + 1;
    }
    assert(all.take(i as int) =~= all);
    payload
}

/// What is left to be written of a batch, after its window.
enum Rest {
    /// The `J` frames, to go out as a compressed frame.
    Compressed(Bytes),
    /// The `J` frames, to go out one by one.
    Frames(BytesMut),
}

/// What is left to be written of a batch, by its bytes.
pub enum RestView {
    Compressed(Seq<u8>),
    Frames(Seq<u8>),
}

impl View for Rest {
    type V = RestView;

    closed spec fn view(&self) -> RestView {
        match *self {
            Rest::Compressed(payload) => RestView::Compressed(bytes_contents(payload)),
            Rest::Frames(payload) => RestView::Frames(buffer_contents(payload)),
        }
    }
}

/// A client that hands a frame to the transport.
pub struct Feeding {
    client: Client,
    n: u32,
    rest: Rest,
}

/// A [`Feeding`]: how many events the batch holds, and what is left of it.
pub struct FeedingView {
    pub client: Client,
    pub n: u32,
    pub rest: RestView,
}

impl View for Feeding {
    type V = FeedingView;

    closed spec fn view(&self) -> FeedingView {
        FeedingView { client: self.client, n: self.n, rest: self.rest@ }
    }
}

/// A client that flushes the transport.
pub struct Flushing {
    client: Client,
    n: u32,
}

/// A client that waits for a reply.
pub struct AwaitingReply {
    client: Client,
    n: u32,
}

/// A [`Flushing`] or an [`AwaitingReply`]: how many events the batch holds.
pub struct SentView {
    pub client: Client,
    pub n: u32,
}

impl View for Flushing {
    type V = SentView;

    closed spec fn view(&self) -> SentView {
        SentView { client: self.client, n: self.n }
    }
}

impl View for AwaitingReply {
    type V = SentView;

    closed spec fn view(&self) -> SentView {
        SentView { client: self.client, n: self.n }
    }
}

/// What writing came to.
pub enum WriteOutcome {
    Written,
    Failed(Error),
    TimedOut,
}

/// A [`WriteOutcome`], by its view.
pub enum WriteOutcomeView {
    Written,
    Failed(ErrorView),
    TimedOut,
}

impl View for WriteOutcome {
    type V = WriteOutcomeView;

    open spec fn view(&self) -> WriteOutcomeView {
        match *self {
            WriteOutcome::Written => WriteOutcomeView::Written,
            WriteOutcome::Failed(e) => WriteOutcomeView::Failed(e@),
            WriteOutcome::TimedOut => WriteOutcomeView::TimedOut,
        }
    }
}

/// What waiting for a reply came to.
pub enum Reply {
    Frame(Frame),
    /// The bytes are no frame, or the transport failed.
    Failed(Error),
    Closed,
    TimedOut,
}

/// A [`Reply`], by its view.
pub enum ReplyView {
    Frame(FrameView),
    Failed(ErrorView),
    Closed,
    TimedOut,
}

impl View for Reply {
    type V = ReplyView;

    open spec fn view(&self) -> ReplyView {
        match *self {
            Reply::Frame(frame) => ReplyView::Frame(frame@),
            Reply::Failed(e) => ReplyView::Failed(e@),
            Reply::Closed => ReplyView::Closed,
            Reply::TimedOut => ReplyView::TimedOut,
        }
    }
}

/// What a client has to do next.
pub enum SendStep {
    /// Hand the frame to the transport, in the time that [`Feeding::timeout`] allows.
    Feed(Frame, Feeding),
    /// Flush the transport, in the time that [`Flushing::timeout`] allows.
    Flush(Flushing),
    /// Wait for a frame, for as long as [`AwaitingReply::timeout`] allows.
    AwaitReply(AwaitingReply),
    /// The client, and how many events the server has acknowledged.
    Done(Client, Result<u32, Error>),
}

/// A [`SendStep`], by its view.
pub enum SendStepView {
    Feed(FrameView, FeedingView),
    Flush(SentView),
    AwaitReply(SentView),
    Done(Client, Result<u32, ErrorView>),
}

impl View for SendStep {
    type V = SendStepView;

    open spec fn view(&self) -> SendStepView {
        match *self {
            SendStep::Feed(frame, state) => SendStepView::Feed(frame@, state@),
            SendStep::Flush(state) => SendStepView::Flush(state@),
            SendStep::AwaitReply(state) => SendStepView::AwaitReply(state@),
            SendStep::Done(client, Ok(n)) => SendStepView::Done(client, Ok(n)),
            SendStep::Done(client, Err(e)) => SendStepView::Done(client, Err(e@)),
        }
    }
}

/// `client`, its connection no good any more.
pub open spec fn spoiled(client: Client) -> Client {
    Client { usable: false, ..client }
}

/// How sending `events` begins: with their number. Nothing is sent where there are
/// none, or where an earlier batch has spoiled the connection.
pub open spec fn send_start(client: Client, events: Seq<Seq<u8>>) -> SendStepView {
    if !client.usable {
        SendStepView::Done(client, Err(ErrorView::ConnectionClosed))
    } else if events.len() == 0 {
        SendStepView::Done(client, Ok(0))
    } else {
        let n = events.len() as u32;
        let payload = wire_all(event_frames(events));
        SendStepView::Feed(
            FrameView::Window(n),
            FeedingView {
                client,
                n,
                rest: if client.compression_level > 0 {
                    RestView::Compressed(payload)
                } else {
                    RestView::Frames(payload)
                },
            },
        )
    }
}

/// Whether `e` says that the bytes of a stream are not what the protocol asks for,
/// after which there is no telling where the next frame begins.
pub open spec fn out_of_step(e: ErrorView) -> bool {
    e is InvalidFrame || e is FrameTooLarge || e is Compression
}

/// How sending ends in the error `e`.
pub open spec fn failed(client: Client, e: ErrorView) -> SendStepView {
    SendStepView::Done(
        if out_of_step(e) {
            spoiled(client)
        } else {
            client
        },
        Err(e),
    )
}

/// Where handing over a frame leads: to the next one, or to flushing after the last.
/// An event over the default limit on frames is found out when its turn comes, and
/// only where events go out one by one. The server is inside a window by then, and
/// the connection is no good any more.
pub open spec fn after_feed(state: FeedingView, outcome: WriteOutcomeView) -> SendStepView {
    match outcome {
        WriteOutcomeView::TimedOut => SendStepView::Done(
            spoiled(state.client),
            Err(ErrorView::WriteTimeout),
        ),
        WriteOutcomeView::Failed(e) => failed(state.client, e),
        WriteOutcomeView::Written => match state.rest {
            RestView::Compressed(payload) => SendStepView::Feed(
                FrameView::Compressed(payload),
                FeedingView { rest: RestView::Frames(Seq::empty()), ..state },
            ),
            RestView::Frames(payload) => match decoded(payload, DEFAULT_MAX_FRAME_SIZE) {
                Decoded::Complete(frame, n) => SendStepView::Feed(
                    frame,
                    FeedingView { rest: RestView::Frames(payload.skip(n as int)), ..state },
                ),
                Decoded::Incomplete => SendStepView::Flush(
                    SentView { client: state.client, n: state.n },
                ),
                Decoded::Malformed(e, _) => failed(state.client, e),
            },
        },
    }
}

/// Where flushing leads.
pub open spec fn after_flush(state: SentView, outcome: WriteOutcomeView) -> SendStepView {
    match outcome {
        WriteOutcomeView::TimedOut => SendStepView::Done(
            spoiled(state.client),
            Err(ErrorView::WriteTimeout),
        ),
        WriteOutcomeView::Failed(e) => failed(state.client, e),
        WriteOutcomeView::Written => SendStepView::AwaitReply(state),
    }
}

/// Where a reply leads. An acknowledgement of the whole batch ends the waiting; a
/// smaller one, down to 0, only says that the server is still there.
pub open spec fn after_reply(state: SentView, reply: ReplyView) -> SendStepView {
    match reply {
        ReplyView::Frame(FrameView::Ack(seq)) => if seq >= state.n {
            SendStepView::Done(state.client, Ok(state.n))
        } else {
            SendStepView::AwaitReply(state)
        },
        ReplyView::Frame(_) => SendStepView::Done(
            spoiled(state.client),
            Err(ErrorView::UnexpectedFrame("expected Ack"@)),
        ),
        ReplyView::Failed(e) => failed(state.client, e),
        ReplyView::Closed => SendStepView::Done(state.client, Err(ErrorView::ConnectionClosed)),
        ReplyView::TimedOut => SendStepView::Done(
            spoiled(state.client),
            Err(ErrorView::AckTimeout),
        ),
    }
}

impl Client {
    pub fn builder() -> (b: ClientBuilder)
        ensures
            b.compression_level == 3,
            b.write_timeout is None,
            b.ack_timeout matches Some(d) && duration_nanos(d) == 30_000_000_000,
            b.local_port_range is None,
            b.tls is None,
    {
        ClientBuilder::default()
    }

    /// Begins to connect, with nothing set.
    pub fn connect() -> (step: ConnectStep)
        ensures
            exists|b: ClientBuilder|
                {
                    &&& step@ == #[trigger] connect_start(b)
                    &&& b.compression_level == 3
                    &&& b.write_timeout is None
                    &&& b.ack_timeout matches Some(d) && duration_nanos(d) == 30_000_000_000
                    &&& b.local_port_range is None
                    &&& b.tls is None
                },
    {
        ClientBuilder::default().connect()
    }

    /// Begins to send a batch: the payload of each event, in order. The client comes
    /// back with the result. Once a write or an
    /// acknowledgement has timed out, or either side has sent something that does not
    /// belong there, every further batch fails.
    pub fn send(self, events: &[Bytes]) -> (step: SendStep)
        requires
            fit(all_contents(events@)),
        ensures
            step@ == send_start(self, all_contents(events@)),
    {
        if !self.usable {
            return SendStep::Done(self, Err(Error::ConnectionClosed));
        }
        if events.len() == 0 {
            return SendStep::Done(self, Ok(0));
        }
        let n: u32 = events.len() as u32;
        let payload: BytesMut = encode_events(events);
        let rest: Rest = if self.compression_level > 0 {
            Rest::Compressed(payload.freeze())
        } else {
            Rest::Frames(payload)
        };
        SendStep::Feed(Frame::Window(n), Feeding { client: self, n, rest })
    }

    fn spoiled(self) -> (client: Client)
        ensures
            client == spoiled(self),
    {
        Client { usable: false, ..self }
    }

    fn failed(self, e: Error) -> (step: SendStep)
        ensures
            step@ == failed(self, e@),
    {
        let client = match &e {
            Error::InvalidFrame(_)
            | Error::FrameTooLarge { .. }
            | Error::Compression(_) => self.spoiled(),
            _ => self,
        };
        SendStep::Done(client, Err(e))
    }
}

impl Feeding {
    /// How long the writing may take; `None` is as long as it takes.
    pub fn timeout(&self) -> (timeout: Option<Duration>)
        ensures
            timeout == self@.client.write_timeout,
    {
        self.client.write_timeout
    }

    /// Goes on with what the writing came to.
    pub fn resume(self, outcome: WriteOutcome) -> (step: SendStep)
        ensures
            step@ == after_feed(self@, outcome@),
    {
        let client = self.client;
        let n: u32 = self.n;
        match outcome {
            WriteOutcome::TimedOut => SendStep::Done(client.spoiled(), Err(Error::WriteTimeout)),
            WriteOutcome::Failed(e) => client.failed(e),
            WriteOutcome::Written => match self.rest {
                Rest::Compressed(payload) => SendStep::Feed(
                    Frame::Compressed(payload),
                    Feeding { client, n, rest: Rest::Frames(BytesMut::new()) },
                ),
                Rest::Frames(payload) => {
                    let mut payload = payload;
                    match Frame::decode(&mut payload) {
                        Ok(Some(frame)) => SendStep::Feed(
                            frame,
                            Feeding { client, n, rest: Rest::Frames(payload) },
                        ),
                        Ok(None) => SendStep::Flush(Flushing { client, n }),
                        Err(e) => client.failed(e),
                    }
                },
            },
        }
    }
}

impl Flushing {
    /// How long the flushing may take; `None` is as long as it takes.
    pub fn timeout(&self) -> (timeout: Option<Duration>)
        ensures
            timeout == self@.client.write_timeout,
    {
        self.client.write_timeout
    }

    /// Goes on with what the flushing came to.
    pub fn resume(self, outcome: WriteOutcome) -> (step: SendStep)
        ensures
            step@ == after_flush(self@, outcome@),
    {
        match outcome {
            WriteOutcome::TimedOut => SendStep::Done(
                self.client.spoiled(),
                Err(Error::WriteTimeout),
            ),
            WriteOutcome::Failed(e) => self.client.failed(e),
            WriteOutcome::Written => SendStep::AwaitReply(
                AwaitingReply { client: self.client, n: self.n },
            ),
        }
    }
}

impl AwaitingReply {
    /// How long to wait for this reply; `None` is as long as it takes. Every reply
    /// has that long, counted from the one before.
    pub fn timeout(&self) -> (timeout: Option<Duration>)
        ensures
            timeout == self@.client.ack_timeout,
    {
        self.client.ack_timeout
    }

    /// Goes on with what the waiting came to.
    pub fn resume(self, reply: Reply) -> (step: SendStep)
        ensures
            step@ == after_reply(self@, reply@),
    {
        match reply {
            Reply::Frame(Frame::Ack(seq)) => if seq >= self.n {
                SendStep::Done(self.client, Ok(self.n))
            } else {
                SendStep::AwaitReply(self)
            },
            Reply::Frame(_) => SendStep::Done(
                self.client.spoiled(),
                Err(Error::UnexpectedFrame("expected Ack")),
            ),
            Reply::Failed(e) => self.client.failed(e),
            Reply::Closed => SendStep::Done(self.client, Err(Error::ConnectionClosed)),
            Reply::TimedOut => SendStep::Done(self.client.spoiled(), Err(Error::AckTimeout)),
        }
    }
}

} // verus!
