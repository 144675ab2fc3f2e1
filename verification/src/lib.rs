//! The Lumberjack v2 protocol: frames, and what a client and a server make of
//! them.
//!
//! Everything here computes, and nothing reads or writes: a connection, a batch that
//! is sent, a client that connects are sequences of states that say what to do next
//! and take what came of it.

pub mod buffer;
pub mod client;
pub mod codec;
pub mod connect;
pub mod connection;
pub mod course;
pub mod error;
pub mod exchange;
pub mod frame;
pub mod laws;
pub mod ports;
pub mod sending;
pub mod server;
pub mod service;
pub mod text;
pub mod time;
pub mod tls;
pub mod views;
pub mod zlib;

pub use client::{Client, ClientBuilder, SendStep};
pub use codec::LumberjackCodec;
pub use connect::ConnectStep;
pub use connection::{ConnectionConfig, Next};
pub use error::{Error, ErrorSource, ErrorView};
pub use frame::{Frame, FrameView};
pub use server::{Batch, Server, ServerBuilder};
