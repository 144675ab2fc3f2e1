//! What holds of all the connections of a server together: none has a say in what
//! becomes of another.

use vstd::prelude::*;

use crate::connection::{after_delivery, after_read, after_tls, after_wait, after_write};
use crate::connection::{between_batches, AckEvent, ConnectionConfig, InputView, NextView};
use crate::error::ErrorView;
use crate::server::{accept_step, after_accept, after_end, wrapped, AcceptEvent, AcceptStep};
use crate::server::ServerView;

verus! {

/// A connection that a server has accepted.
pub enum Served {
    /// The TLS handshake is still to come.
    Handshake(ConnectionConfig),
    /// The protocol is spoken.
    Running(NextView),
}

/// What happens on a connection.
pub enum Event {
    Handshake(Result<(), std::io::Error>),
    Read(InputView),
    Delivered(bool),
    Ack(AckEvent),
    Written(Result<(), ErrorView>),
}

/// How a connection begins that is served on these terms.
pub open spec fn served(config: ConnectionConfig, handshake: bool) -> Served {
    if handshake {
        Served::Handshake(config)
    } else {
        Served::Running(between_batches(config))
    }
}

/// What `event` makes of `connection`, which asked for it.
pub open spec fn advance(connection: Served, event: Event) -> Served {
    match (connection, event) {
        (Served::Handshake(config), Event::Handshake(outcome)) => Served::Running(
            after_tls(config, outcome),
        ),
        (Served::Running(NextView::Read(state)), Event::Read(input)) => Served::Running(
            after_read(state, input),
        ),
        (Served::Running(NextView::Deliver(_, state)), Event::Delivered(delivered)) =>
            Served::Running(after_delivery(state, delivered)),
        (Served::Running(NextView::AwaitAck(state)), Event::Ack(event)) => Served::Running(
            after_wait(state, event),
        ),
        (Served::Running(NextView::Write(_, state)), Event::Written(outcome)) =>
            Served::Running(after_write(state, outcome)),
        _ => connection,
    }
}

/// Whether `connection` is closed.
pub open spec fn has_ended(connection: Served) -> bool {
    connection matches Served::Running(NextView::Done(_))
}

/// What `events` make of `connection`, one after the other.
pub open spec fn advance_all(connection: Served, events: Seq<Event>) -> Served
    decreases events.len(),
{
    if events.len() == 0 {
        connection
    } else {
        advance(advance_all(connection, events.drop_last()), events.last())
    }
}

/// A server, and every connection that it has accepted, in order.
pub struct Service {
    pub server: ServerView,
    pub connections: Seq<Served>,
}

/// What happens to a server.
pub enum Happening {
    /// A connection is accepted.
    Accepted,
    /// Something happens on the connection of this number.
    On(int, Event),
}

/// What `happening` makes of `service`.
pub open spec fn happen(service: Service, happening: Happening) -> Service {
    match happening {
        Happening::Accepted => match accept_step(service.server, AcceptEvent::Accepted) {
            AcceptStep::Serve { config, handshake } => Service {
                server: after_accept(service.server, AcceptEvent::Accepted),
                connections: service.connections.push(served(config, handshake)),
            },
            AcceptStep::Stop => service,
        },
        Happening::On(i, event) => if 0 <= i < service.connections.len() {
            let before = service.connections[i];
            let after = advance(before, event);
            Service {
                server: if has_ended(after) && !has_ended(before) {
                    after_end(service.server)
                } else {
                    service.server
                },
                connections: service.connections.update(i, after),
            }
        } else {
            service
        },
    }
}

/// What `history` makes of `service`.
pub open spec fn happen_all(service: Service, history: Seq<Happening>) -> Service
    decreases history.len(),
{
    if history.len() == 0 {
        service
    } else {
        happen(happen_all(service, history.drop_last()), history.last())
    }
}

/// What happens on connection `i` in the course of `history`.
pub open spec fn events_on(history: Seq<Happening>, i: int) -> Seq<Event>
    decreases history.len(),
{
    if history.len() == 0 {
        Seq::empty()
    } else {
        let before = events_on(history.drop_last(), i);
        match history.last() {
            Happening::On(j, event) => if i == j {
                before.push(event)
            } else {
                before
            },
            Happening::Accepted => before,
        }
    }
}

/// How many of `connections` are not closed.
pub open spec fn open_count(connections: Seq<Served>) -> nat
    decreases connections.len(),
{
    if connections.len() == 0 {
        0
    } else {
        open_count(connections.drop_last()) + if has_ended(connections.last()) {
            0nat
        } else {
            1nat
        }
    }
}

/// What becomes of a connection is up to what happens on it alone, whatever becomes
/// of the others.
pub proof fn law_isolated(service: Service, history: Seq<Happening>, i: int)
    requires
        0 <= i < service.connections.len(),
    ensures
        ({
            let later = happen_all(service, history);
            &&& later.connections.len() >= service.connections.len()
            &&& later.connections[i] == advance_all(
                service.connections[i],
                events_on(history, i),
            )
        }),
    decreases history.len(),
{
    if history.len() > 0 {
        let before = events_on(history.drop_last(), i);
        law_isolated(service, history.drop_last(), i);
        if let Happening::On(j, event) = history.last() {
            if i == j {
                assert(before.push(event).drop_last() =~= before);
            }
        }
    }
}

proof fn lemma_terms(service: Service, history: Seq<Happening>)
    ensures
        ({
            let later = happen_all(service, history).server;
            later.config == service.server.config && later.handshake == service.server.handshake
        }),
    decreases history.len(),
{
    if history.len() > 0 {
        lemma_terms(service, history.drop_last());
    }
}

proof fn lemma_stays_closed(connection: Served, events: Seq<Event>)
    requires
        has_ended(connection),
    ensures
        advance_all(connection, events) == connection,
    decreases events.len(),
{
    if events.len() > 0 {
        lemma_stays_closed(connection, events.drop_last());
    }
}

/// A connection that ends, be it for a handshake that failed or a stream that broke
/// the protocol, ends alone. It stays closed. Any other connection, `j`, goes on as if
/// nothing had been: what it delivers and what it acknowledges is up to what happens
/// on it. The next connection is accepted, and begins as every other.
pub proof fn law_ends_alone(
    service: Service,
    i: int,
    event: Event,
    history: Seq<Happening>,
    j: int,
)
    requires
        0 <= i < service.connections.len(),
        0 <= j < service.connections.len(),
        i != j,
        has_ended(advance(service.connections[i], event)),
    ensures
        ({
            let later = happen_all(happen(service, Happening::On(i, event)), history);
            let next = happen(later, Happening::Accepted);
            &&& later.connections[i] == advance(service.connections[i], event)
            &&& later.connections[j] == advance_all(
                service.connections[j],
                events_on(history, j),
            )
            &&& accept_step(later.server, AcceptEvent::Accepted) == AcceptStep::Serve {
                config: service.server.config,
                handshake: service.server.handshake,
            }
            &&& next.connections == later.connections.push(
                served(service.server.config, service.server.handshake),
            )
        }),
{
    let after = happen(service, Happening::On(i, event));
    law_isolated(after, history, i);
    law_isolated(after, history, j);
    lemma_stays_closed(after.connections[i], events_on(history, i));
    lemma_terms(after, history);
}

proof fn lemma_open_update(connections: Seq<Served>, i: int, connection: Served)
    requires
        0 <= i < connections.len(),
    ensures
        open_count(connections.update(i, connection)) + (if has_ended(connections[i]) {
            0int
        } else {
            1
        }) == open_count(connections) + (if has_ended(connection) {
            0int
        } else {
            1
        }),
    decreases connections.len(),
{
    let updated = connections.update(i, connection);
    if i == connections.len() - 1 {
        assert(updated.drop_last() =~= connections.drop_last());
    } else {
        assert(updated.drop_last() =~= connections.drop_last().update(i, connection));
        lemma_open_update(connections.drop_last(), i, connection);
    }
}

/// A server always knows how many of its connections are open, as long as that is a
/// number that a `usize` holds.
pub proof fn law_open_count(service: Service, history: Seq<Happening>)
    requires
        service.server.active == open_count(service.connections),
        service.connections.len() + history.len() <= usize::MAX,
    ensures
        ({
            let later = happen_all(service, history);
            &&& later.server.active == open_count(later.connections)
            &&& later.connections.len() <= service.connections.len() + history.len()
        }),
    decreases history.len(),
{
    if history.len() > 0 {
        let before = happen_all(service, history.drop_last());
        law_open_count(service, history.drop_last());
        lemma_open_bound(before.connections);
        match history.last() {
            Happening::Accepted => {
                let config = before.server.config;
                let connection = served(config, before.server.handshake);
                assert(before.connections.push(connection).drop_last() =~= before.connections);
                lemma_small(before.server.active + 1);
            },
            Happening::On(i, event) => if 0 <= i < before.connections.len() {
                let connection = advance(before.connections[i], event);
                lemma_open_update(before.connections, i, connection);
                lemma_open_bound(before.connections.update(i, connection));
                lemma_small(before.server.active - 1);
            },
        }
    }
}

proof fn lemma_open_bound(connections: Seq<Served>)
    ensures
        open_count(connections) <= connections.len(),
    decreases connections.len(),
{
    if connections.len() > 0 {
        lemma_open_bound(connections.drop_last());
    }
}

proof fn lemma_small(n: int)
    ensures
        0 <= n <= usize::MAX ==> wrapped(n) == n,
{
    if 0 <= n <= usize::MAX {
        vstd::arithmetic::div_mod::lemma_small_mod(n as nat, (usize::MAX + 1) as nat);
    }
}

} // verus!
