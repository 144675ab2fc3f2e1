//! What the views of values say: no more and no less than the values themselves.

use bytes::Bytes;
use tokio_rustls::rustls::pki_types::ServerName;
use tokio_rustls::rustls::Error as RustlsError;
use tokio_rustls::TlsConnector;
use vstd::prelude::*;
use vstd::std_specs::convert::FromSpec;

use crate::buffer::{all_contents, bytes_contents};
use crate::client::{AwaitingReply, Client, Feeding, Flushing, Reply, ReplyView, SendStep};
use crate::client::{SendStepView, WriteOutcome, WriteOutcomeView};
use crate::connect::{ConnectStep, ConnectStepView, Handshaking, Opening, Resolving, Scanning};
use crate::connection::{AwaitingAck, Delivering, Input, InputView, Next, NextView};
use crate::connection::{Reading, Writing};
use crate::error::{is_message, Error, ErrorView};
use crate::frame::{Frame, FrameView};
use crate::server::Batch;
use crate::text::decimal;

verus! {

/// A frame, by its numbers and bytes.
pub proof fn law_frame_view(n: u32, data: Bytes)
    ensures
        Frame::Window(n)@ == FrameView::Window(n),
        (Frame::Json { seq: n, data })@ == (FrameView::Json { seq: n, data: bytes_contents(data) }),
        Frame::Compressed(data)@ == FrameView::Compressed(bytes_contents(data)),
        Frame::Ack(n)@ == FrameView::Ack(n),
{
}

/// The contents of several buffers are those of each of them, in order.
pub proof fn law_contents(bs: Seq<Bytes>)
    ensures
        all_contents(bs).len() == bs.len(),
        forall|i: int|
            0 <= i < bs.len() ==> #[trigger] all_contents(bs)[i] == bytes_contents(bs[i]),
{
}

/// An error, by its numbers and texts.
pub proof fn law_error_view(
    io: std::io::Error,
    tls: RustlsError,
    s: &'static str,
    text: String,
    size: usize,
    max: usize,
    got: u32,
    prev: u32,
)
    ensures
        Error::Io(io)@ == ErrorView::Io(io),
        Error::InvalidFrame(s)@ == ErrorView::InvalidFrame(s@),
        (Error::FrameTooLarge { size, max })@ == (ErrorView::FrameTooLarge { size, max }),
        Error::Compression(text)@ == ErrorView::Compression(text@),
        Error::Serialization(text)@ == ErrorView::Serialization(text@),
        Error::UnexpectedFrame(s)@ == ErrorView::UnexpectedFrame(s@),
        (Error::SeqOutOfOrder { got, prev })@ == (ErrorView::SeqOutOfOrder { got, prev }),
        Error::WriteTimeout@ == ErrorView::WriteTimeout,
        Error::AckTimeout@ == ErrorView::AckTimeout,
        Error::ConnectionClosed@ == ErrorView::ConnectionClosed,
        Error::InvalidConfig(s)@ == ErrorView::InvalidConfig(s@),
        Error::NoLocalPortAvailable@ == ErrorView::NoLocalPortAvailable,
        Error::Tls(tls)@ == ErrorView::Tls(tls),
        <Error as FromSpec<std::io::Error>>::from_spec(io) == Error::Io(io),
        <Error as FromSpec<RustlsError>>::from_spec(tls) == Error::Tls(tls),
{
}

/// What people are shown of an error: what went wrong, and the numbers and texts that
/// go with it, in decimal and as they are.
pub proof fn law_message(
    m: Seq<char>,
    s: &'static str,
    text: String,
    size: usize,
    max: usize,
    got: u32,
    prev: u32,
)
    ensures
        is_message(Error::InvalidFrame(s), m) ==> m == "invalid frame: "@ + s@,
        is_message((Error::FrameTooLarge { size, max }), m) ==> m == "frame too large: "@ + decimal(
            size as nat,
        ) + " > "@ + decimal(max as nat),
        is_message(Error::Compression(text), m) ==> m == "compression error: "@ + text@,
        is_message(Error::Serialization(text), m) ==> m == "serialization error: "@ + text@,
        is_message(Error::UnexpectedFrame(s), m) ==> m == "unexpected frame: "@ + s@,
        is_message((Error::SeqOutOfOrder { got, prev }), m) ==> m == "seq out of order: got "@
            + decimal(got as nat) + ", expected > "@ + decimal(prev as nat),
        is_message(Error::WriteTimeout, m) ==> m == "write timeout"@,
        is_message(Error::AckTimeout, m) ==> m == "ack timeout"@,
        is_message(Error::ConnectionClosed, m) ==> m == "connection closed by peer"@,
        is_message(Error::InvalidConfig(s), m) ==> m == "invalid config: "@ + s@,
        is_message(Error::NoLocalPortAvailable, m) ==> m
            == "no local port available in configured range"@,
{
}

/// The message of an error that stands for another begins with what kind it is, and
/// ends with the text of the other.
pub proof fn law_source_message(io: std::io::Error, tls: RustlsError, m: Seq<char>)
    ensures
        is_message(Error::Io(io), m) ==> exists|text: String| #[trigger]
            vstd::string::to_string_from_display_ensures(&io, text) && m == "io error: "@ + text@,
        is_message(Error::Tls(tls), m) ==> exists|text: String| #[trigger]
            vstd::string::to_string_from_display_ensures(&tls, text) && m == "tls error: "@ + text@,
{
}

/// What a connection is told, by its view.
pub proof fn law_input_view(frame: Frame, e: Error)
    ensures
        Input::Frame(frame)@ == InputView::Frame(frame@),
        Input::Failed(e)@ == InputView::Failed(e@),
        Input::EndOfStream@ == InputView::EndOfStream,
{
}

/// What a connection has to do next, by its view.
pub proof fn law_next_view(
    reading: Reading,
    batch: Batch,
    delivering: Delivering,
    waiting: AwaitingAck,
    frame: Frame,
    writing: Writing,
    e: Error,
)
    ensures
        Next::Read(reading)@ == NextView::Read(reading@),
        Next::Deliver(batch, delivering)@ == NextView::Deliver(batch@, delivering@),
        Next::AwaitAck(waiting)@ == NextView::AwaitAck(waiting@),
        Next::Write(frame, writing)@ == NextView::Write(frame@, writing@),
        Next::Done(Ok(()))@ == NextView::Done(Ok(())),
        Next::Done(Err(e))@ == NextView::Done(Err(e@)),
{
}

/// What a client is told while it sends, by its view.
pub proof fn law_reply_view(frame: Frame, e: Error)
    ensures
        WriteOutcome::Written@ == WriteOutcomeView::Written,
        WriteOutcome::Failed(e)@ == WriteOutcomeView::Failed(e@),
        WriteOutcome::TimedOut@ == WriteOutcomeView::TimedOut,
        Reply::Frame(frame)@ == ReplyView::Frame(frame@),
        Reply::Failed(e)@ == ReplyView::Failed(e@),
        Reply::Closed@ == ReplyView::Closed,
        Reply::TimedOut@ == ReplyView::TimedOut,
{
}

/// What a client that sends has to do next, by its view.
pub proof fn law_send_step_view(
    frame: Frame,
    feeding: Feeding,
    flushing: Flushing,
    waiting: AwaitingReply,
    client: Client,
    n: u32,
    e: Error,
)
    ensures
        SendStep::Feed(frame, feeding)@ == SendStepView::Feed(frame@, feeding@),
        SendStep::Flush(flushing)@ == SendStepView::Flush(flushing@),
        SendStep::AwaitReply(waiting)@ == SendStepView::AwaitReply(waiting@),
        SendStep::Done(client, Ok(n))@ == SendStepView::Done(client, Ok(n)),
        SendStep::Done(client, Err(e))@ == SendStepView::Done(client, Err(e@)),
{
}

/// What a client that connects has to do next, by its view.
pub proof fn law_connect_step_view(
    resolving: Resolving,
    opening: Opening,
    address: String,
    scanning: Scanning,
    connector: TlsConnector,
    name: ServerName<'static>,
    handshaking: Handshaking,
    client: Client,
    e: Error,
)
    ensures
        ConnectStep::Resolve(resolving)@ == ConnectStepView::Resolve(resolving@),
        ConnectStep::Open(opening)@ == ConnectStepView::Open(opening@),
        ConnectStep::TryPort(address, scanning)@ == ConnectStepView::TryPort(address@, scanning@),
        ConnectStep::Handshake(connector, name, handshaking)@ == ConnectStepView::Handshake(
            connector,
            name,
            handshaking@,
        ),
        ConnectStep::Done(Ok(client))@ == ConnectStepView::Done(Ok(client)),
        ConnectStep::Done(Err(e))@ == ConnectStepView::Done(Err(e@)),
{
}

} // verus!
