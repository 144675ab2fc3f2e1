//! The server's side: batches, and what a server makes of its connections.

use bytes::Bytes;
use std::time::Duration;
use tokio_rustls::TlsAcceptor;
use vstd::arithmetic::div_mod::{lemma_add_mod_noop_right, lemma_fundamental_div_mod_converse};
use vstd::arithmetic::div_mod::{lemma_mod_bound, lemma_small_mod};
use vstd::prelude::*;

use crate::buffer::all_contents;
use crate::connection::ConnectionConfig;
use crate::frame::DEFAULT_MAX_FRAME_SIZE;
use crate::time::{duration_nanos, duration_of_secs};

verus! {

/// A received batch. Events are kept as their **raw payload bytes** exactly as
/// they arrived on the wire: nothing parses or validates them. The consumer
/// decides whether and how to decode each payload.
///
/// A batch owes its connection one acknowledgement.
pub struct Batch {
    events: Vec<Bytes>,
    last_seq: u32,
    owes_ack: bool,
}

/// A [`Batch`]: the payloads in wire order, the last sequence number, and whether
/// the acknowledgement is still owed.
pub struct BatchView {
    pub events: Seq<Seq<u8>>,
    pub last_seq: u32,
    pub owes_ack: bool,
}

impl View for Batch {
    type V = BatchView;

    closed spec fn view(&self) -> BatchView {
        BatchView {
            events: all_contents(self.events@),
            last_seq: self.last_seq,
            owes_ack: self.owes_ack,
        }
    }
}

/// The sequence number to acknowledge for `batch`, as long as that is owed.
pub open spec fn owed(batch: BatchView) -> Option<u32> {
    if batch.owes_ack {
        Some(batch.last_seq)
    } else {
        None
    }
}

/// `batch`, its acknowledgement no longer owed.
pub open spec fn released(batch: BatchView) -> BatchView {
    BatchView { owes_ack: false, ..batch }
}

impl Batch {
    pub fn new(events: Vec<Bytes>, last_seq: u32) -> (batch: Batch)
        ensures
            batch@ == (BatchView { events: all_contents(events@), last_seq, owes_ack: true }),
    {
        Batch { events, last_seq, owes_ack: true }
    }

    /// The raw payload bytes of each event in the batch, in wire order.
    pub fn events(&self) -> (events: &[Bytes])
        ensures
            all_contents(events@) == self@.events,
    {
        self.events.as_slice()
    }

    /// Take ownership of the raw event payloads. The batch is gone with that, and an
    /// acknowledgement that is still owed is made up for by the connection: a batch
    /// that is lost counts as acknowledged, by the same number.
    pub fn into_events(self) -> (events: Vec<Bytes>)
        ensures
            all_contents(events@) == self@.events,
    {
        self.events
    }

    pub fn len(&self) -> (n: usize)
        ensures
            n == self@.events.len(),
    {
        self.events.len()
    }

    pub fn is_empty(&self) -> (empty: bool)
        ensures
            empty == (self@.events.len() == 0),
    {
        self.events.len() == 0
    }

    /// The sequence number to acknowledge, unless that was done already.
    pub fn ack(self) -> (seq: Option<u32>)
        ensures
            seq == owed(self@),
    {
        let mut batch = self;
        batch.release()
    }

    /// Hands out the sequence number to acknowledge, the first time it is called.
    /// A batch that goes away without [`Batch::ack`] is acknowledged by this.
    pub fn release(&mut self) -> (seq: Option<u32>)
        ensures
            seq == owed(old(self)@),
            final(self)@ == released(old(self)@),
    {
        if self.owes_ack {
            self.owes_ack = false;
            Some(self.last_seq)
        } else {
            None
        }
    }
}

/// A batch is acknowledged by its last sequence number, and only once: after that
/// nothing is owed, and the events are still there.
pub proof fn law_ack_once(batch: BatchView)
    requires
        batch.owes_ack,
    ensures
        owed(batch) == Some(batch.last_seq),
        owed(released(batch)) is None,
        released(released(batch)) == released(batch),
        released(batch).events == batch.events,
{
}

#[verifier::external_type_specification]
#[verifier::external_body]
pub struct ExTlsAcceptor(TlsAcceptor);

/// How a server is to behave.
pub struct ServerBuilder {
    pub keepalive: Option<Duration>,
    /// How many batches may wait for their consumer.
    pub channel_capacity: usize,
    pub max_frame_size: usize,
    pub tls: Option<TlsAcceptor>,
}

impl Default for ServerBuilder {
    fn default() -> (b: ServerBuilder)
        ensures
            b.keepalive matches Some(d) && duration_nanos(d) == 15_000_000_000,
            b.channel_capacity == 128,
            b.max_frame_size == DEFAULT_MAX_FRAME_SIZE,
            b.tls is None,
    {
        ServerBuilder {
            keepalive: Some(duration_of_secs(15)),
            channel_capacity: 128,
            max_frame_size: DEFAULT_MAX_FRAME_SIZE,
            tls: None,
        }
    }
}

impl ServerBuilder {
    pub fn keepalive(self, interval: Duration) -> (b: ServerBuilder)
        ensures
            b == (ServerBuilder { keepalive: Some(interval), ..self }),
    {
        ServerBuilder { keepalive: Some(interval), ..self }
    }

    pub fn no_keepalive(self) -> (b: ServerBuilder)
        ensures
            b == (ServerBuilder { keepalive: None, ..self }),
    {
        ServerBuilder { keepalive: None, ..self }
    }

    pub fn channel_capacity(self, n: usize) -> (b: ServerBuilder)
        ensures
            b == (ServerBuilder { channel_capacity: n, ..self }),
    {
        ServerBuilder { channel_capacity: n, ..self }
    }

    pub fn max_frame_size(self, n: usize) -> (b: ServerBuilder)
        ensures
            b == (ServerBuilder { max_frame_size: n, ..self }),
    {
        ServerBuilder { max_frame_size: n, ..self }
    }

    pub fn tls(self, acceptor: TlsAcceptor) -> (b: ServerBuilder)
        ensures
            b == (ServerBuilder { tls: Some(acceptor), ..self }),
    {
        ServerBuilder { tls: Some(acceptor), ..self }
    }

    /// The server, once its listener is bound: no connection is open, and no batch
    /// waits. There has to be room for a batch to wait, and no channel has room for
    /// more than an eighth of what a `usize` counts.
    pub fn bind(&self) -> (server: Server)
        requires
            1 <= self.channel_capacity <= usize::MAX / 8,
        ensures
            server@ == (ServerView {
                config: ConnectionConfig {
                    max_frame_size: self.max_frame_size,
                    keepalive: self.keepalive,
                },
                handshake: self.tls is Some,
                channel_capacity: self.channel_capacity,
                active: 0,
            }),
    {
        Server {
            config: ConnectionConfig {
                max_frame_size: self.max_frame_size,
                keepalive: self.keepalive,
            },
            handshake: self.tls.is_some(),
            channel_capacity: self.channel_capacity,
            active: 0,
        }
    }
}

/// What a server knows of its connections.
pub struct Server {
    config: ConnectionConfig,
    handshake: bool,
    channel_capacity: usize,
    active: usize,
}

/// A [`Server`]: what holds for every connection, whether a connection begins with
/// a TLS handshake, how many batches may wait for their consumer, and how many
/// connections are open.
pub struct ServerView {
    pub config: ConnectionConfig,
    pub handshake: bool,
    pub channel_capacity: usize,
    pub active: usize,
}

impl View for Server {
    type V = ServerView;

    closed spec fn view(&self) -> ServerView {
        ServerView {
            config: self.config,
            handshake: self.handshake,
            channel_capacity: self.channel_capacity,
            active: self.active,
        }
    }
}

/// What listening came to.
pub enum AcceptEvent {
    /// The server was told to stop.
    Shutdown,
    Accepted,
    Failed,
}

/// What a server does about it.
pub enum AcceptStep {
    /// Serve the connection, after a TLS handshake where `handshake` is set, and
    /// listen on.
    Serve { config: ConnectionConfig, handshake: bool },
    /// Listen no more. Open connections go on.
    Stop,
}

/// What `event` makes of a server. The count starts over at 0 after the largest
/// number.
pub open spec fn after_accept(server: ServerView, event: AcceptEvent) -> ServerView {
    match event {
        AcceptEvent::Accepted => ServerView { active: wrapped(server.active + 1), ..server },
        _ => server,
    }
}

/// What a server does about `event`: a connection that is accepted is served.
pub open spec fn accept_step(server: ServerView, event: AcceptEvent) -> AcceptStep {
    match event {
        AcceptEvent::Accepted => AcceptStep::Serve {
            config: server.config,
            handshake: server.handshake,
        },
        _ => AcceptStep::Stop,
    }
}

/// What the end of a connection makes of a server.
pub open spec fn after_end(server: ServerView) -> ServerView {
    ServerView { active: wrapped(server.active - 1), ..server }
}

/// `n`, taken modulo the number of values that a `usize` has.
pub open spec fn wrapped(n: int) -> usize {
    (n % (usize::MAX + 1)) as usize
}

impl Server {
    pub fn builder() -> (b: ServerBuilder)
        ensures
            b.keepalive matches Some(d) && duration_nanos(d) == 15_000_000_000,
            b.channel_capacity == 128,
            b.max_frame_size == DEFAULT_MAX_FRAME_SIZE,
            b.tls is None,
    {
        ServerBuilder::default()
    }

    /// How many batches may wait for their consumer.
    pub fn channel_capacity(&self) -> (n: usize)
        ensures
            n == self@.channel_capacity,
    {
        self.channel_capacity
    }

    /// Number of currently-open connections: accepted, and not yet ended.
    pub fn active_connections(&self) -> (n: usize)
        ensures
            n == self@.active,
    {
        self.active
    }

    /// Decides what to do about what listening came to. A connection counts as open
    /// from here on, its TLS handshake included.
    pub fn accept(&mut self, event: AcceptEvent) -> (step: AcceptStep)
        ensures
            final(self)@ == after_accept(old(self)@, event),
            step == accept_step(old(self)@, event),
    {
        match event {
            AcceptEvent::Accepted => {
                self.active = self.active.wrapping_add(1);
                AcceptStep::Serve { config: self.config, handshake: self.handshake }
            },
            AcceptEvent::Shutdown | AcceptEvent::Failed => AcceptStep::Stop,
        }
    }

    /// Notes that a connection has ended, well or in an error.
    pub fn ended(&mut self)
        ensures
            final(self)@ == after_end(old(self)@),
    {
        proof {
            lemma_fundamental_div_mod_converse(-1, usize::MAX + 1, -1, usize::MAX as int);
        }
        self.active = self.active.wrapping_sub(1);
    }
}

/// What a server becomes in the course of `history`, in which `true` stands for a
/// connection that is accepted, and `false` for one that ends.
pub open spec fn after_history(server: ServerView, history: Seq<bool>) -> ServerView
    decreases history.len(),
{
    if history.len() == 0 {
        server
    } else {
        let before = after_history(server, history.drop_last());
        if history.last() {
            after_accept(before, AcceptEvent::Accepted)
        } else {
            after_end(before)
        }
    }
}

/// Whatever connections come and go, the server goes on as before: it serves the
/// next connection, on the same terms as the first.
pub proof fn law_serves_on(server: ServerView, history: Seq<bool>)
    ensures
        ({
            let later = after_history(server, history);
            &&& later.config == server.config
            &&& later.handshake == server.handshake
            &&& later.channel_capacity == server.channel_capacity
            &&& accept_step(later, AcceptEvent::Accepted) == AcceptStep::Serve {
                config: server.config,
                handshake: server.handshake,
            }
        }),
    decreases history.len(),
{
    if history.len() > 0 {
        law_serves_on(server, history.drop_last());
    }
}

/// How many of `history` are `which`.
pub open spec fn occurrences(history: Seq<bool>, which: bool) -> int
    decreases history.len(),
{
    if history.len() == 0 {
        0
    } else {
        occurrences(history.drop_last(), which) + if history.last() == which {
            1int
        } else {
            0
        }
    }
}

/// The number of open connections is that of the accepted ones, less those that have
/// ended.
pub proof fn law_active(server: ServerView, history: Seq<bool>)
    requires
        server.active == 0,
        0 <= occurrences(history, true) - occurrences(history, false) <= usize::MAX,
    ensures
        after_history(server, history).active == occurrences(history, true) - occurrences(
            history,
            false,
        ),
{
    lemma_active(server, history);
    lemma_small_mod(
        (occurrences(history, true) - occurrences(history, false)) as nat,
        (usize::MAX + 1) as nat,
    );
}

proof fn lemma_active(server: ServerView, history: Seq<bool>)
    requires
        server.active == 0,
    ensures
        after_history(server, history).active == wrapped(
            occurrences(history, true) - occurrences(history, false),
        ),
    decreases history.len(),
{
    if history.len() == 0 {
        lemma_small_mod(0, (usize::MAX + 1) as nat);
    } else {
        let earlier = history.drop_last();
        let open = occurrences(earlier, true) - occurrences(earlier, false);
        let change: int = if history.last() {
            1
        } else {
            -1
        };
        lemma_active(server, earlier);
        lemma_mod_bound(open, usize::MAX + 1);
        lemma_add_mod_noop_right(change, open, usize::MAX + 1);
    }
}

} // verus!
