//! How a client gets its connection.
//!
//! Connecting is a sequence of states. Each state says what is to be done next:
//! look up the target, connect to it, try a local port, secure the connection. What
//! came of it leads to the next state. Nothing here touches the network.

use std::io::ErrorKind;
use tokio_rustls::rustls::pki_types::{InvalidDnsNameError, ServerName};
use tokio_rustls::TlsConnector;
use vstd::prelude::*;

use crate::client::{send_start, Client, ClientBuilder, SendStepView};
use crate::error::{Error, ErrorView};
use crate::frame::FrameView;
use crate::ports::{any_address, bind_address, port, port_at, port_count, ports, random_below};

verus! {

#[verifier::external_type_specification]
#[verifier::external_body]
pub struct ExServerName<'a>(ServerName<'a>);

#[verifier::external_type_specification]
#[verifier::external_body]
pub struct ExInvalidDnsNameError(InvalidDnsNameError);

/// The kinds of failure that are told apart when connecting.
pub enum FailureKind {
    AddrInUse,
    AddrNotAvailable,
    Other,
}

/// The kind that `std::io::Error::kind` gives for `e`.
pub uninterp spec fn failure_kind(e: std::io::Error) -> FailureKind;

/// `std::io::Error::kind`, its two kinds that have to do with a local address told
/// apart from the rest.
#[verifier::external_body]
fn kind_of(e: &std::io::Error) -> (kind: FailureKind)
    ensures
        kind == failure_kind(*e),
{
    match e.kind() {
        ErrorKind::AddrInUse => FailureKind::AddrInUse,
        ErrorKind::AddrNotAvailable => FailureKind::AddrNotAvailable,
        _ => FailureKind::Other,
    }
}

/// What `ServerName::try_from` makes of `domain`: a DNS name or an IP address.
pub uninterp spec fn parsed_server_name(domain: Seq<char>) -> Result<
    ServerName<'static>,
    InvalidDnsNameError,
>;

/// `ServerName::try_from` on a string. Its result depends on the string alone.
#[verifier::external_body]
fn parse_server_name(domain: String) -> (r: Result<ServerName<'static>, InvalidDnsNameError>)
    ensures
        r == parsed_server_name(domain@),
{
    ServerName::try_from(domain)
}

/// What looking up the target came to.
pub enum Resolution {
    /// The first address is to be used; `v4` tells its family.
    Found { v4: bool },
    /// There is no address.
    Empty,
    Failed(std::io::Error),
}

/// What trying a local port came to.
pub enum PortOutcome {
    /// No socket could be made.
    NoSocket(std::io::Error),
    /// The socket could not be bound to the port.
    BindFailed,
    ConnectFailed(std::io::Error),
    Connected,
}

/// A client that looks up its target.
pub struct Resolving {
    settings: ClientBuilder,
}

/// A client that connects from whatever local port there is.
pub struct Opening {
    settings: ClientBuilder,
}

impl View for Resolving {
    type V = ClientBuilder;

    closed spec fn view(&self) -> ClientBuilder {
        self.settings
    }
}

impl View for Opening {
    type V = ClientBuilder;

    closed spec fn view(&self) -> ClientBuilder {
        self.settings
    }
}

/// Whether the local ports of `settings`, where they are restricted, are a range.
pub open spec fn valid(settings: ClientBuilder) -> bool {
    settings.local_port_range matches Some((start, end)) ==> start <= end
}

impl Resolving {
    #[verifier::type_invariant]
    spec fn well_formed(self) -> bool {
        valid(self.settings)
    }
}

/// A client that tries the local ports of a range, one by one.
pub struct Scanning {
    settings: ClientBuilder,
    v4: bool,
    start: u16,
    end: u16,
    offset: u32,
    tried: u32,
}

/// A [`Scanning`]: the family of the target, the range, where in it the first port
/// stands, and how many ports were tried before.
pub struct ScanView {
    pub settings: ClientBuilder,
    pub v4: bool,
    pub start: u16,
    pub end: u16,
    pub offset: u32,
    pub tried: u32,
}

impl View for Scanning {
    type V = ScanView;

    closed spec fn view(&self) -> ScanView {
        ScanView {
            settings: self.settings,
            v4: self.v4,
            start: self.start,
            end: self.end,
            offset: self.offset,
            tried: self.tried,
        }
    }
}

impl Scanning {
    #[verifier::type_invariant]
    spec fn well_formed(self) -> bool {
        &&& self.start <= self.end
        &&& self.offset < port_count(self.start, self.end)
        &&& self.tried < port_count(self.start, self.end)
    }
}

/// A client that secures its connection.
pub struct Handshaking {
    client: Client,
}

impl View for Handshaking {
    type V = Client;

    closed spec fn view(&self) -> Client {
        self.client
    }
}

/// What a client has to do next.
pub enum ConnectStep {
    /// Look up the target.
    Resolve(Resolving),
    /// Connect to the target.
    Open(Opening),
    /// Bind a socket of the target's family to this address, and connect from there.
    TryPort(String, Scanning),
    /// Shake hands, with the server proving this name.
    Handshake(TlsConnector, ServerName<'static>, Handshaking),
    /// The client is connected, or is not.
    Done(Result<Client, Error>),
}

/// A [`ConnectStep`], by its view.
pub enum ConnectStepView {
    Resolve(ClientBuilder),
    Open(ClientBuilder),
    TryPort(Seq<char>, ScanView),
    Handshake(TlsConnector, ServerName<'static>, Client),
    Done(Result<Client, ErrorView>),
}

impl View for ConnectStep {
    type V = ConnectStepView;

    open spec fn view(&self) -> ConnectStepView {
        match *self {
            ConnectStep::Resolve(state) => ConnectStepView::Resolve(state@),
            ConnectStep::Open(state) => ConnectStepView::Open(state@),
            ConnectStep::TryPort(address, state) => ConnectStepView::TryPort(address@, state@),
            ConnectStep::Handshake(connector, name, state) => ConnectStepView::Handshake(
                connector,
                name,
                state@,
            ),
            ConnectStep::Done(Ok(client)) => ConnectStepView::Done(Ok(client)),
            ConnectStep::Done(Err(e)) => ConnectStepView::Done(Err(e@)),
        }
    }
}

/// The client that `settings` ask for.
pub open spec fn client_of(settings: ClientBuilder) -> Client {
    Client {
        compression_level: settings.compression_level,
        write_timeout: settings.write_timeout,
        ack_timeout: settings.ack_timeout,
        usable: true,
    }
}

/// How connecting begins: a range of ports that is none is refused at once.
pub open spec fn connect_start(settings: ClientBuilder) -> ConnectStepView {
    if valid(settings) {
        ConnectStepView::Resolve(settings)
    } else {
        ConnectStepView::Done(Err(ErrorView::InvalidConfig("local_port_range start > end"@)))
    }
}

/// The state in which the port that `scan` has come to is tried.
pub open spec fn try_port(scan: ScanView) -> ConnectStepView {
    ConnectStepView::TryPort(
        any_address(scan.v4, port_at(scan.start, scan.end, scan.offset, scan.tried)),
        scan,
    )
}

/// Where the look-up leads; ports are tried from the one `offset` above the first.
pub open spec fn after_resolution(
    settings: ClientBuilder,
    resolution: Resolution,
    offset: u32,
) -> ConnectStepView {
    match resolution {
        Resolution::Failed(e) => ConnectStepView::Done(Err(ErrorView::Io(e))),
        Resolution::Empty => ConnectStepView::Done(
            Err(ErrorView::InvalidConfig("no addresses resolved"@)),
        ),
        Resolution::Found { v4 } => match settings.local_port_range {
            None => ConnectStepView::Open(settings),
            Some((start, end)) => try_port(
                ScanView { settings, v4, start, end, offset, tried: 0 },
            ),
        },
    }
}

/// Where an unsecured connection leads, `name` being what the domain was parsed to.
pub open spec fn secured(
    client: Client,
    connector: TlsConnector,
    name: Result<ServerName<'static>, InvalidDnsNameError>,
) -> ConnectStepView {
    match name {
        Ok(name) => ConnectStepView::Handshake(connector, name, client),
        Err(_) => ConnectStepView::Done(
            Err(ErrorView::InvalidConfig("invalid TLS server name"@)),
        ),
    }
}

/// Where a connection to the target leads.
pub open spec fn connected(settings: ClientBuilder) -> ConnectStepView {
    match settings.tls {
        None => ConnectStepView::Done(Ok(client_of(settings))),
        Some((connector, domain)) => secured(
            client_of(settings),
            connector,
            parsed_server_name(domain@),
        ),
    }
}

/// Where an attempt to connect leads.
pub open spec fn after_open(
    settings: ClientBuilder,
    outcome: Result<(), std::io::Error>,
) -> ConnectStepView {
    match outcome {
        Ok(()) => connected(settings),
        Err(e) => ConnectStepView::Done(Err(ErrorView::Io(e))),
    }
}

/// Where a port that is of no use leads: to the next one, as long as there is one.
pub open spec fn next_port(scan: ScanView) -> ConnectStepView {
    if scan.tried + 1 < port_count(scan.start, scan.end) {
        try_port(ScanView { tried: (scan.tried + 1) as u32, ..scan })
    } else {
        ConnectStepView::Done(Err(ErrorView::NoLocalPortAvailable))
    }
}

/// Where the failure `e` to connect from a local port leads.
pub open spec fn after_connect_failure(
    scan: ScanView,
    e: std::io::Error,
    kind: FailureKind,
) -> ConnectStepView {
    match kind {
        FailureKind::AddrInUse => next_port(scan),
        FailureKind::AddrNotAvailable => next_port(scan),
        FailureKind::Other => ConnectStepView::Done(Err(ErrorView::Io(e))),
    }
}

/// Where trying a port leads.
pub open spec fn after_port(scan: ScanView, outcome: PortOutcome) -> ConnectStepView {
    match outcome {
        PortOutcome::NoSocket(e) => ConnectStepView::Done(Err(ErrorView::Io(e))),
        PortOutcome::BindFailed => next_port(scan),
        PortOutcome::ConnectFailed(e) => after_connect_failure(scan, e, failure_kind(e)),
        PortOutcome::Connected => connected(scan.settings),
    }
}

/// Where a handshake leads.
pub open spec fn after_handshake(
    client: Client,
    outcome: Result<(), std::io::Error>,
) -> ConnectStepView {
    match outcome {
        Ok(()) => ConnectStepView::Done(Ok(client)),
        Err(e) => ConnectStepView::Done(Err(ErrorView::Io(e))),
    }
}

/// Begins to connect.
pub(crate) fn start_connecting(settings: ClientBuilder) -> (step: ConnectStep)
    ensures
        step@ == connect_start(settings),
{
    if let Some((start, end)) = settings.local_port_range {
        if start > end {
            return ConnectStep::Done(Err(Error::InvalidConfig("local_port_range start > end")));
        }
    }
    ConnectStep::Resolve(Resolving { settings })
}

/// Goes on from an unsecured connection, `name` being what the domain was parsed to.
pub fn secure(
    client: Client,
    connector: TlsConnector,
    name: Result<ServerName<'static>, InvalidDnsNameError>,
) -> (step: ConnectStep)
    ensures
        step@ == secured(client, connector, name),
{
    match name {
        Ok(name) => ConnectStep::Handshake(connector, name, Handshaking { client }),
        Err(_) => ConnectStep::Done(Err(Error::InvalidConfig("invalid TLS server name"))),
    }
}

fn connected_step(settings: ClientBuilder) -> (step: ConnectStep)
    ensures
        step@ == connected(settings),
{
    let client = Client {
        compression_level: settings.compression_level,
        write_timeout: settings.write_timeout,
        ack_timeout: settings.ack_timeout,
        usable: true,
    };
    match settings.tls {
        None => ConnectStep::Done(Ok(client)),
        Some((connector, domain)) => secure(client, connector, parse_server_name(domain)),
    }
}

impl Resolving {
    /// Goes on with what the look-up came to. Where local ports are to be tried, the
    /// first one is drawn at random, so that clients that share a range do
    /// not all begin at the same port.
    pub fn resume(self, resolution: Resolution) -> (step: ConnectStep)
        ensures
            exists|offset: u32|
                {
                    &&& self@.local_port_range matches Some((start, end)) ==> offset
                        < port_count(start, end)
                    &&& step@ == #[trigger] after_resolution(self@, resolution, offset)
                },
    {
        proof {
            use_type_invariant(&self);
        }
        let offset: u32 = match (&resolution, self.settings.local_port_range) {
            (Resolution::Found { .. }, Some((start, end))) => random_below(
                (end - start) as u32 + 1,
            ),
            _ => 0,
        };
        self.resume_at(resolution, offset)
    }

    /// Goes on with what the look-up came to, trying ports from the one `offset`
    /// above the first.
    pub fn resume_at(self, resolution: Resolution, offset: u32) -> (step: ConnectStep)
        requires
            self@.local_port_range matches Some((start, end)) ==> offset < port_count(start, end),
        ensures
            step@ == after_resolution(self@, resolution, offset),
    {
        proof {
            use_type_invariant(&self);
        }
        match resolution {
            Resolution::Failed(e) => ConnectStep::Done(Err(Error::Io(e))),
            Resolution::Empty => ConnectStep::Done(
                Err(Error::InvalidConfig("no addresses resolved")),
            ),
            Resolution::Found { v4 } => match self.settings.local_port_range {
                None => ConnectStep::Open(Opening { settings: self.settings }),
                Some((start, end)) => ConnectStep::TryPort(
                    bind_address(v4, port(start, end, offset, 0)),
                    Scanning { settings: self.settings, v4, start, end, offset, tried: 0 },
                ),
            },
        }
    }
}

impl Opening {
    /// Goes on with what the attempt to connect came to.
    pub fn resume(self, outcome: Result<(), std::io::Error>) -> (step: ConnectStep)
        ensures
            step@ == after_open(self@, outcome),
    {
        match outcome {
            Ok(()) => connected_step(self.settings),
            Err(e) => ConnectStep::Done(Err(Error::Io(e))),
        }
    }
}

impl Scanning {
    fn next_port(self) -> (step: ConnectStep)
        ensures
            step@ == next_port(self@),
    {
        proof {
            use_type_invariant(&self);
        }
        let count: u32 = (self.end - self.start) as u32 + 1;
        let tried: u32 = self.tried + 1;
        if tried < count {
            ConnectStep::TryPort(
                bind_address(self.v4, port(self.start, self.end, self.offset, tried)),
                Scanning { tried, ..self },
            )
        } else {
            ConnectStep::Done(Err(Error::NoLocalPortAvailable))
        }
    }

    /// Goes on with a failure to connect, of kind `kind`.
    pub fn connect_failed(self, e: std::io::Error, kind: FailureKind) -> (step: ConnectStep)
        ensures
            step@ == after_connect_failure(self@, e, kind),
    {
        match kind {
            FailureKind::AddrInUse | FailureKind::AddrNotAvailable => self.next_port(),
            FailureKind::Other => ConnectStep::Done(Err(Error::Io(e))),
        }
    }

    /// Goes on with what trying the port came to.
    pub fn resume(self, outcome: PortOutcome) -> (step: ConnectStep)
        ensures
            step@ == after_port(self@, outcome),
    {
        match outcome {
            PortOutcome::NoSocket(e) => ConnectStep::Done(Err(Error::Io(e))),
            PortOutcome::BindFailed => self.next_port(),
            PortOutcome::ConnectFailed(e) => {
                let kind = kind_of(&e);
                self.connect_failed(e, kind)
            },
            PortOutcome::Connected => connected_step(self.settings),
        }
    }
}

impl Handshaking {
    /// Goes on with what the handshake came to.
    pub fn resume(self, outcome: Result<(), std::io::Error>) -> (step: ConnectStep)
        ensures
            step@ == after_handshake(self@, outcome),
    {
        match outcome {
            Ok(()) => ConnectStep::Done(Ok(self.client)),
            Err(e) => ConnectStep::Done(Err(Error::Io(e))),
        }
    }
}

/// Whether `outcome` says that a port is taken, and nothing worse.
pub open spec fn is_taken(outcome: PortOutcome) -> bool {
    match outcome {
        PortOutcome::BindFailed => true,
        PortOutcome::ConnectFailed(e) => failure_kind(e) !is Other,
        _ => false,
    }
}

/// Where `outcomes` lead, one after the other, as far as ports are tried at all.
pub open spec fn after_ports(step: ConnectStepView, outcomes: Seq<PortOutcome>) -> ConnectStepView
    decreases outcomes.len(),
{
    if outcomes.len() == 0 {
        step
    } else {
        match after_ports(step, outcomes.drop_last()) {
            ConnectStepView::TryPort(_, scan) => after_port(scan, outcomes.last()),
            done => done,
        }
    }
}

/// The ports of the range are tried in order, each after the ones before it were
/// found to be taken. Only when none is left does connecting fail for want of a port.
pub proof fn law_scan(
    settings: ClientBuilder,
    v4: bool,
    start: u16,
    end: u16,
    offset: u32,
    outcomes: Seq<PortOutcome>,
)
    requires
        settings.local_port_range == Some((start, end)),
        start <= end,
        outcomes.len() <= port_count(start, end),
        forall|i: int| 0 <= i < outcomes.len() ==> is_taken(#[trigger] outcomes[i]),
    ensures
        after_ports(
            after_resolution(settings, Resolution::Found { v4 }, offset),
            outcomes,
        ) == if outcomes.len() < port_count(start, end) {
            ConnectStepView::TryPort(
                any_address(v4, ports(start, end, offset)[outcomes.len() as int]),
                ScanView { settings, v4, start, end, offset, tried: outcomes.len() as u32 },
            )
        } else {
            ConnectStepView::Done(Err(ErrorView::NoLocalPortAvailable))
        },
    decreases outcomes.len(),
{
    if outcomes.len() > 0 {
        law_scan(settings, v4, start, end, offset, outcomes.drop_last());
        assert(is_taken(outcomes[outcomes.len() - 1]));
    }
}

/// Whether `client` is good to send, and has the settings that were asked for.
pub open spec fn as_asked(client: Client, settings: ClientBuilder) -> bool {
    &&& client.usable
    &&& client.compression_level == settings.compression_level
    &&& client.write_timeout == settings.write_timeout
    &&& client.ack_timeout == settings.ack_timeout
}

/// How connecting begins: with a look-up, unless the local ports that are asked for go
/// from a higher one to a lower one.
pub proof fn law_connect_begins(settings: ClientBuilder)
    ensures
        match settings.local_port_range {
            Some((start, end)) if start > end => connect_start(settings)
                == ConnectStepView::Done(
                Err(ErrorView::InvalidConfig("local_port_range start > end"@)),
            ),
            _ => connect_start(settings) == ConnectStepView::Resolve(settings),
        },
{
}

/// A look-up that fails ends connecting in its error, and one that finds nothing in
/// want of an address. With an address, connecting goes on: from any port where none
/// is asked for, and from the first port of the order otherwise.
pub proof fn law_looked_up(
    settings: ClientBuilder,
    v4: bool,
    offset: u32,
    e: std::io::Error,
)
    requires
        settings.local_port_range matches Some((start, end)) ==> start <= end,
    ensures
        after_resolution(settings, Resolution::Failed(e), offset) == ConnectStepView::Done(
            Err(ErrorView::Io(e)),
        ),
        after_resolution(settings, Resolution::Empty, offset) == ConnectStepView::Done(
            Err(ErrorView::InvalidConfig("no addresses resolved"@)),
        ),
        match settings.local_port_range {
            None => after_resolution(settings, Resolution::Found { v4 }, offset)
                == ConnectStepView::Open(settings),
            Some((start, end)) => after_resolution(settings, Resolution::Found { v4 }, offset)
                == ConnectStepView::TryPort(
                any_address(v4, ports(start, end, offset)[0]),
                ScanView { settings, v4, start, end, offset, tried: 0 },
            ),
        },
{
}

/// A connection to the target is all that a client needs without TLS: it is good to
/// send, with the settings that were asked for. With TLS the handshake comes first,
/// with the connector that was given and the name that the domain is; a domain that
/// is no name ends connecting. It makes no difference from which port the connection
/// came about.
pub proof fn law_connection_made(settings: ClientBuilder, scan: ScanView)
    requires
        scan.settings == settings,
    ensures
        after_open(settings, Ok(())) == after_port(scan, PortOutcome::Connected),
        match settings.tls {
            None => after_open(settings, Ok(())) matches ConnectStepView::Done(Ok(client))
                && as_asked(client, settings),
            Some((connector, domain)) => match parsed_server_name(domain@) {
                Ok(name) => after_open(settings, Ok(())) matches ConnectStepView::Handshake(
                    c,
                    n,
                    client,
                ) && c == connector && n == name && as_asked(client, settings),
                Err(_) => after_open(settings, Ok(())) == ConnectStepView::Done(
                    Err(ErrorView::InvalidConfig("invalid TLS server name"@)),
                ),
            },
        },
{
}

/// A handshake that works out leaves the client as it was; what fails, fails in its
/// own error.
pub proof fn law_connect_fails(
    settings: ClientBuilder,
    scan: ScanView,
    client: Client,
    e: std::io::Error,
)
    ensures
        after_handshake(client, Ok(())) == ConnectStepView::Done(Ok(client)),
        after_handshake(client, Err(e)) == ConnectStepView::Done(Err(ErrorView::Io(e))),
        after_open(settings, Err(e)) == ConnectStepView::Done(Err(ErrorView::Io(e))),
        after_port(scan, PortOutcome::NoSocket(e)) == ConnectStepView::Done(
            Err(ErrorView::Io(e)),
        ),
        failure_kind(e) is Other ==> after_port(scan, PortOutcome::ConnectFailed(e))
            == ConnectStepView::Done(Err(ErrorView::Io(e))),
        after_connect_failure(scan, e, FailureKind::Other) == ConnectStepView::Done(
            Err(ErrorView::Io(e)),
        ),
        after_connect_failure(scan, e, FailureKind::AddrInUse) == after_port(
            scan,
            PortOutcome::BindFailed,
        ),
        after_connect_failure(scan, e, FailureKind::AddrNotAvailable) == after_port(
            scan,
            PortOutcome::BindFailed,
        ),
{
}

/// What the domain was parsed to decides: a name is what the handshake is about, with
/// the connector and the client as they are; anything else is refused.
pub proof fn law_secured(
    client: Client,
    connector: TlsConnector,
    name: ServerName<'static>,
    e: InvalidDnsNameError,
)
    ensures
        secured(client, connector, Ok(name)) == ConnectStepView::Handshake(
            connector,
            name,
            client,
        ),
        secured(client, connector, Err(e)) == ConnectStepView::Done(
            Err(ErrorView::InvalidConfig("invalid TLS server name"@)),
        ),
{
}

/// What a client that connects is told. A look-up comes with the offset of the port
/// that is to be tried first.
pub enum ConnectEvent {
    Resolved(Resolution, u32),
    Opened(Result<(), std::io::Error>),
    Tried(PortOutcome),
    Shaken(Result<(), std::io::Error>),
}

/// What `event` makes of `step`, which asked for it.
pub open spec fn connect_advance(step: ConnectStepView, event: ConnectEvent) -> ConnectStepView {
    match (step, event) {
        (
            ConnectStepView::Resolve(settings),
            ConnectEvent::Resolved(resolution, offset),
        ) => after_resolution(settings, resolution, offset),
        (ConnectStepView::Open(settings), ConnectEvent::Opened(outcome)) => after_open(
            settings,
            outcome,
        ),
        (ConnectStepView::TryPort(_, scan), ConnectEvent::Tried(outcome)) => after_port(
            scan,
            outcome,
        ),
        (ConnectStepView::Handshake(_, _, client), ConnectEvent::Shaken(outcome)) =>
            after_handshake(client, outcome),
        _ => step,
    }
}

/// What `events` make of `step`, one after the other.
pub open spec fn connect_advance_all(
    step: ConnectStepView,
    events: Seq<ConnectEvent>,
) -> ConnectStepView
    decreases events.len(),
{
    if events.len() == 0 {
        step
    } else {
        connect_advance(connect_advance_all(step, events.drop_last()), events.last())
    }
}

/// However a client gets its connection, from whatever port, with or without TLS: it
/// is good to send, with the settings that were asked for, and a batch that is not
/// empty begins with its window. Where TLS is asked for, no client comes about without
/// a handshake that worked out.
pub proof fn law_client_as_asked(
    settings: ClientBuilder,
    events: Seq<ConnectEvent>,
    batch: Seq<Seq<u8>>,
)
    requires
        0 < batch.len() <= u32::MAX,
    ensures
        match connect_advance_all(connect_start(settings), events) {
            ConnectStepView::Resolve(s) => s == settings,
            ConnectStepView::Open(s) => s == settings,
            ConnectStepView::TryPort(_, scan) => scan.settings == settings,
            ConnectStepView::Handshake(connector, _, client) => as_asked(client, settings) && (
            settings.tls matches Some((c, _)) && c == connector),
            ConnectStepView::Done(Ok(client)) => {
                &&& as_asked(client, settings)
                &&& send_start(client, batch) matches SendStepView::Feed(FrameView::Window(n), _)
                    && n == batch.len()
                &&& settings.tls is Some ==> exists|i: int|
                    0 <= i < events.len() && (#[trigger] events[i] matches ConnectEvent::Shaken(
                        Ok(_),
                    ))
            },
            ConnectStepView::Done(Err(_)) => true,
        },
    decreases events.len(),
{
    if events.len() > 0 {
        let earlier = events.drop_last();
        let last = events.len() - 1;
        let before = connect_advance_all(connect_start(settings), earlier);
        let now = connect_advance_all(connect_start(settings), events);
        law_client_as_asked(settings, earlier, batch);
        if now matches ConnectStepView::Done(Ok(_)) && settings.tls is Some {
            if before is Done {
                let i = choose|i: int|
                    0 <= i < earlier.len() && (#[trigger] earlier[i] matches ConnectEvent::Shaken(
                        Ok(_),
                    ));
                assert(events[i] == earlier[i]);
            } else {
                assert(events[last] matches ConnectEvent::Shaken(Ok(_)));
            }
        }
    }
}

} // verus!
