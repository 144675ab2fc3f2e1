//! What can go wrong, in the protocol and around it.

use tokio_rustls::rustls::Error as RustlsError;
use vstd::prelude::*;
use vstd::string::{to_string_from_display_ensures, StringExecFns};

use crate::text::{decimal, push_decimal};

verus! {

#[verifier::external_type_specification]
#[verifier::external_body]
pub struct ExIoError(std::io::Error);

#[verifier::external_type_specification]
#[verifier::external_body]
pub struct ExTlsError(RustlsError);

#[derive(Debug)]
pub enum Error {
    /// The transport failed.
    Io(std::io::Error),
    /// The bytes are not a frame of this protocol.
    InvalidFrame(&'static str),
    /// A frame announces, or inflates to, more bytes than are allowed.
    FrameTooLarge { size: usize, max: usize },
    /// The payload of a compressed frame is not a zlib stream.
    Compression(String),
    /// An event could not be serialized.
    Serialization(String),
    /// The frame is well formed, and out of place.
    UnexpectedFrame(&'static str),
    /// The sequence numbers of a batch do not increase.
    SeqOutOfOrder { got: u32, prev: u32 },
    WriteTimeout,
    AckTimeout,
    ConnectionClosed,
    InvalidConfig(&'static str),
    NoLocalPortAvailable,
    Tls(RustlsError),
}

/// An [`Error`], its texts taken as sequences of characters.
pub enum ErrorView {
    Io(std::io::Error),
    InvalidFrame(Seq<char>),
    FrameTooLarge { size: usize, max: usize },
    Compression(Seq<char>),
    Serialization(Seq<char>),
    UnexpectedFrame(Seq<char>),
    SeqOutOfOrder { got: u32, prev: u32 },
    WriteTimeout,
    AckTimeout,
    ConnectionClosed,
    InvalidConfig(Seq<char>),
    NoLocalPortAvailable,
    Tls(RustlsError),
}

impl View for Error {
    type V = ErrorView;

    open spec fn view(&self) -> ErrorView {
        match *self {
            Error::Io(e) => ErrorView::Io(e),
            Error::InvalidFrame(s) => ErrorView::InvalidFrame(s@),
            Error::FrameTooLarge { size, max } => ErrorView::FrameTooLarge { size, max },
            Error::Compression(s) => ErrorView::Compression(s@),
            Error::Serialization(s) => ErrorView::Serialization(s@),
            Error::UnexpectedFrame(s) => ErrorView::UnexpectedFrame(s@),
            Error::SeqOutOfOrder { got, prev } => ErrorView::SeqOutOfOrder { got, prev },
            Error::WriteTimeout => ErrorView::WriteTimeout,
            Error::AckTimeout => ErrorView::AckTimeout,
            Error::ConnectionClosed => ErrorView::ConnectionClosed,
            Error::InvalidConfig(s) => ErrorView::InvalidConfig(s@),
            Error::NoLocalPortAvailable => ErrorView::NoLocalPortAvailable,
            Error::Tls(e) => ErrorView::Tls(e),
        }
    }
}

/// The error underneath an [`Error`].
#[derive(Debug)]
pub enum ErrorSource<'a> {
    Io(&'a std::io::Error),
    Tls(&'a RustlsError),
}

/// The message of `e`, up to the text that an underlying error gives itself.
pub open spec fn is_message(e: Error, message: Seq<char>) -> bool {
    match e {
        Error::Io(source) => exists|text: String| #[trigger]
            to_string_from_display_ensures(&source, text) && message == "io error: "@ + text@,
        Error::InvalidFrame(s) => message == "invalid frame: "@ + s@,
        Error::FrameTooLarge { size, max } => message == "frame too large: "@ + decimal(
            size as nat,
        ) + " > "@ + decimal(max as nat),
        Error::Compression(s) => message == "compression error: "@ + s@,
        Error::Serialization(s) => message == "serialization error: "@ + s@,
        Error::UnexpectedFrame(s) => message == "unexpected frame: "@ + s@,
        Error::SeqOutOfOrder { got, prev } => message == "seq out of order: got "@ + decimal(
            got as nat,
        ) + ", expected > "@ + decimal(prev as nat),
        Error::WriteTimeout => message == "write timeout"@,
        Error::AckTimeout => message == "ack timeout"@,
        Error::ConnectionClosed => message == "connection closed by peer"@,
        Error::InvalidConfig(s) => message == "invalid config: "@ + s@,
        Error::NoLocalPortAvailable => message == "no local port available in configured range"@,
        Error::Tls(source) => exists|text: String| #[trigger]
            to_string_from_display_ensures(&source, text) && message == "tls error: "@ + text@,
    }
}

impl Error {
    /// The message shown to people.
    pub fn to_string(&self) -> (message: String)
        ensures
            is_message(*self, message@),
    {
        match self {
            Error::Io(source) => {
                let text: String = source.to_string();
                let mut out: String = "io error: ".to_owned();
                out.append(text.as_str());
                out
            },
            Error::InvalidFrame(s) => "invalid frame: ".to_owned().concat(s),
            Error::FrameTooLarge { size, max } => {
                let mut out: String = "frame too large: ".to_owned();
                push_decimal(&mut out, *size as u64);
                out.append(" > ");
                push_decimal(&mut out, *max as u64);
                out
            },
            Error::Compression(s) => "compression error: ".to_owned().concat(s.as_str()),
            Error::Serialization(s) => "serialization error: ".to_owned().concat(s.as_str()),
            Error::UnexpectedFrame(s) => "unexpected frame: ".to_owned().concat(s),
            Error::SeqOutOfOrder { got, prev } => {
                let mut out: String = "seq out of order: got ".to_owned();
                push_decimal(&mut out, *got as u64);
                out.append(", expected > ");
                push_decimal(&mut out, *prev as u64);
                out
            },
            Error::WriteTimeout => "write timeout".to_owned(),
            Error::AckTimeout => "ack timeout".to_owned(),
            Error::ConnectionClosed => "connection closed by peer".to_owned(),
            Error::InvalidConfig(s) => "invalid config: ".to_owned().concat(s),
            Error::NoLocalPortAvailable => "no local port available in configured range".to_owned(),
            Error::Tls(source) => {
                let text: String = source.to_string();
                let mut out: String = "tls error: ".to_owned();
                out.append(text.as_str());
                out
            },
        }
    }

    /// The error that this one stands for, where there is one.
    pub fn source(&self) -> (source: Option<ErrorSource<'_>>)
        ensures
            match *self {
                Error::Io(e) => source == Some(ErrorSource::Io(&e)),
                Error::Tls(e) => source == Some(ErrorSource::Tls(&e)),
                _ => source is None,
            },
    {
        match self {
            Error::Io(e) => Some(ErrorSource::Io(e)),
            Error::Tls(e) => Some(ErrorSource::Tls(e)),
            _ => None,
        }
    }
}

impl From<std::io::Error> for Error {
    fn from(e: std::io::Error) -> (r: Error) {
        Error::Io(e)
    }
}

impl vstd::std_specs::convert::FromSpecImpl<std::io::Error> for Error {
    open spec fn obeys_from_spec() -> bool {
        true
    }

    open spec fn from_spec(e: std::io::Error) -> Error {
        Error::Io(e)
    }
}

impl From<RustlsError> for Error {
    fn from(e: RustlsError) -> (r: Error) {
        Error::Tls(e)
    }
}

impl vstd::std_specs::convert::FromSpecImpl<RustlsError> for Error {
    open spec fn obeys_from_spec() -> bool {
        true
    }

    open spec fn from_spec(e: RustlsError) -> Error {
        Error::Tls(e)
    }
}

} // verus!
