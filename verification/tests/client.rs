use bytes::{Bytes, BytesMut};
use lumberjack::client::{fits, payloads, AwaitingReply, Feeding, Reply, WriteOutcome};
use lumberjack::connect::{FailureKind, PortOutcome, Resolution, Resolving, Scanning};
use lumberjack::ports::{bind_address, port};
use lumberjack::{Client, ClientBuilder, ConnectStep, Error, Frame, SendStep};
use std::io::ErrorKind;
use std::time::Duration;

fn client(compression_level: u32) -> Client {
    Client {
        compression_level,
        write_timeout: None,
        ack_timeout: Some(Duration::from_secs(5)),
        usable: true,
    }
}

fn events(payloads: &[&'static str]) -> Vec<Bytes> {
    payloads.iter().map(|p| Bytes::from_static(p.as_bytes())).collect()
}

fn fed(step: SendStep) -> (Frame, Feeding) {
    match step {
        SendStep::Feed(frame, state) => (frame, state),
        _ => panic!("no frame is sent"),
    }
}

/// Writes what is to be written, and hands out the frames.
fn write_all(mut step: SendStep) -> (Vec<Frame>, SendStep) {
    let mut frames = Vec::new();
    loop {
        step = match step {
            SendStep::Feed(frame, state) => {
                frames.push(frame);
                state.resume(WriteOutcome::Written)
            }
            SendStep::Flush(state) => state.resume(WriteOutcome::Written),
            other => return (frames, other),
        };
    }
}

fn waiting(step: SendStep) -> AwaitingReply {
    match step {
        SendStep::AwaitReply(state) => state,
        _ => panic!("the client does not wait"),
    }
}

fn done(step: SendStep) -> (Client, Result<u32, Error>) {
    match step {
        SendStep::Done(client, result) => (client, result),
        _ => panic!("the client goes on"),
    }
}

fn resolving(builder: ClientBuilder) -> Resolving {
    match builder.connect() {
        ConnectStep::Resolve(state) => state,
        _ => panic!("nothing is looked up"),
    }
}

fn scanning(step: ConnectStep) -> (String, Scanning) {
    match step {
        ConnectStep::TryPort(address, state) => (address, state),
        _ => panic!("no port is tried"),
    }
}

fn connected(step: ConnectStep) -> Result<Client, Error> {
    match step {
        ConnectStep::Done(result) => result,
        _ => panic!("the client goes on"),
    }
}

#[test]
fn invalid_port_range_errors() {
    let res = connected(ClientBuilder::default().local_port_range(50000, 49000).connect());
    assert!(matches!(res, Err(Error::InvalidConfig("local_port_range start > end"))));
}

#[test]
fn send_uncompressed_writes_window_then_json_then_returns_on_ack() {
    let step = client(0).send(&events(&["{\"a\":1}", "{\"b\":2}"]));
    let (frames, step) = write_all(step);
    assert_eq!(
        frames,
        [
            Frame::Window(2),
            Frame::Json { seq: 1, data: Bytes::from_static(b"{\"a\":1}") },
            Frame::Json { seq: 2, data: Bytes::from_static(b"{\"b\":2}") },
        ]
    );
    let (client, n) = done(waiting(step).resume(Reply::Frame(Frame::Ack(2))));
    assert_eq!(n.unwrap(), 2);
    assert!(client.usable);
}

#[test]
fn send_compressed_emits_window_then_compressed_frame() {
    let step = client(3).send(&events(&["{\"a\":1}", "{\"b\":2}"]));
    let (frames, step) = write_all(step);
    assert_eq!(frames.len(), 2);
    assert_eq!(frames[0], Frame::Window(2));
    match &frames[1] {
        Frame::Compressed(inner) => {
            let mut buf = BytesMut::from(&inner[..]);
            let f1 = Frame::decode(&mut buf).unwrap().unwrap();
            let f2 = Frame::decode(&mut buf).unwrap().unwrap();
            assert!(matches!(f1, Frame::Json { seq: 1, .. }));
            assert!(matches!(f2, Frame::Json { seq: 2, .. }));
            assert!(buf.is_empty());
        }
        other => panic!("expected Compressed, got {other:?}"),
    }
    let (_, n) = done(waiting(step).resume(Reply::Frame(Frame::Ack(2))));
    assert_eq!(n.unwrap(), 2);
}

#[test]
fn send_returns_ack_timeout_when_peer_silent() {
    let mut client = client(0);
    client.ack_timeout = Some(Duration::from_millis(50));
    let (_, step) = write_all(client.send(&events(&["{\"x\":1}"])));
    let state = waiting(step);
    assert_eq!(state.timeout(), Some(Duration::from_millis(50)));
    let (client, res) = done(state.resume(Reply::TimedOut));
    assert!(matches!(res, Err(Error::AckTimeout)));
    assert!(!client.usable);
}

#[test]
fn send_tolerates_ack0_keepalives() {
    let (_, mut step) = write_all(client(0).send(&events(&["{\"x\":1}"])));
    for _ in 0..3 {
        step = waiting(step).resume(Reply::Frame(Frame::Ack(0)));
    }
    let (_, n) = done(waiting(step).resume(Reply::Frame(Frame::Ack(1))));
    assert_eq!(n.unwrap(), 1);
}

#[test]
fn local_port_range_uses_port_within_range() {
    for port in 45000..=45200u16 {
        let state = resolving(ClientBuilder::default().local_port_range(port, port));
        let (address, state) = scanning(state.resume(Resolution::Found { v4: true }));
        assert_eq!(address, format!("0.0.0.0:{port}"));
        assert!(connected(state.resume(PortOutcome::Connected)).is_ok());
    }
}

#[test]
fn the_first_port_is_drawn_from_the_range() {
    for _ in 0..20 {
        let state = resolving(ClientBuilder::default().local_port_range(45000, 45200));
        let (address, _) = scanning(state.resume(Resolution::Found { v4: true }));
        let port: u16 = address.strip_prefix("0.0.0.0:").unwrap().parse().unwrap();
        assert!((45000..=45200).contains(&port));
    }
}

#[test]
fn local_port_range_skips_busy_port() {
    let state = resolving(ClientBuilder::default().local_port_range(45300, 45301));
    let (busy, state) = scanning(state.resume_at(Resolution::Found { v4: true }, 0));
    assert_eq!(busy, "0.0.0.0:45300");
    let (other, state) = scanning(state.resume(PortOutcome::BindFailed));
    assert_eq!(other, "0.0.0.0:45301");
    assert!(connected(state.resume(PortOutcome::Connected)).is_ok());
}

#[test]
fn local_port_range_exhausted_errors() {
    let state = resolving(ClientBuilder::default().local_port_range(45400, 45400));
    let (_, state) = scanning(state.resume(Resolution::Found { v4: false }));
    let res = connected(state.resume(PortOutcome::BindFailed));
    assert!(matches!(res, Err(Error::NoLocalPortAvailable)));
}

#[test]
fn every_port_of_a_range_is_tried_once() {
    let state = resolving(ClientBuilder::default().local_port_range(65530, 65535));
    let mut step = state.resume_at(Resolution::Found { v4: false }, 4);
    let mut tried = Vec::new();
    while let ConnectStep::TryPort(address, state) = step {
        tried.push(address);
        step = state.resume(PortOutcome::BindFailed);
    }
    assert_eq!(
        tried,
        ["[::]:65534", "[::]:65535", "[::]:65530", "[::]:65531", "[::]:65532", "[::]:65533"]
    );
    assert!(matches!(connected(step), Err(Error::NoLocalPortAvailable)));
    assert_eq!(port(0, 65535, 65535, 1), 0);
    assert_eq!(bind_address(true, 7), "0.0.0.0:7");
}

#[test]
fn a_port_that_is_taken_leads_to_the_next_one() {
    for kind in [ErrorKind::AddrInUse, ErrorKind::AddrNotAvailable] {
        let state = resolving(ClientBuilder::default().local_port_range(1000, 1001));
        let (_, state) = scanning(state.resume_at(Resolution::Found { v4: true }, 0));
        let (next, _) = scanning(state.resume(PortOutcome::ConnectFailed(kind.into())));
        assert_eq!(next, "0.0.0.0:1001");
    }
    let state = resolving(ClientBuilder::default().local_port_range(1000, 1001));
    let (_, state) = scanning(state.resume_at(Resolution::Found { v4: true }, 0));
    let refused = PortOutcome::ConnectFailed(ErrorKind::ConnectionRefused.into());
    match connected(state.resume(refused)) {
        Err(Error::Io(e)) => assert_eq!(e.kind(), ErrorKind::ConnectionRefused),
        _ => panic!("expected an io error"),
    }

    let state = resolving(ClientBuilder::default().local_port_range(1000, 1001));
    let (_, state) = scanning(state.resume_at(Resolution::Found { v4: true }, 0));
    let step = state.connect_failed(ErrorKind::TimedOut.into(), FailureKind::AddrInUse);
    assert_eq!(scanning(step).0, "0.0.0.0:1001");

    let state = resolving(ClientBuilder::default().local_port_range(1000, 1001));
    let (_, state) = scanning(state.resume_at(Resolution::Found { v4: true }, 0));
    let no_socket = PortOutcome::NoSocket(ErrorKind::PermissionDenied.into());
    assert!(matches!(connected(state.resume(no_socket)), Err(Error::Io(_))));
}

#[test]
fn a_target_without_address_is_refused() {
    let state = resolving(ClientBuilder::default());
    assert!(matches!(
        connected(state.resume(Resolution::Empty)),
        Err(Error::InvalidConfig("no addresses resolved"))
    ));
    let state = resolving(ClientBuilder::default());
    assert!(matches!(
        connected(state.resume(Resolution::Failed(ErrorKind::NotFound.into()))),
        Err(Error::Io(_))
    ));
    let state = resolving(ClientBuilder::default().local_port_range(1000, 1001));
    assert!(matches!(
        connected(state.resume(Resolution::Empty)),
        Err(Error::InvalidConfig("no addresses resolved"))
    ));
}

#[test]
fn the_settings_of_a_client() {
    let b = Client::builder();
    assert_eq!(b.compression_level, 3);
    assert_eq!(b.write_timeout, None);
    assert_eq!(b.ack_timeout, Some(Duration::from_secs(30)));
    assert_eq!(b.local_port_range, None);
    assert!(b.tls.is_none());

    let b = b
        .compression_level(0)
        .write_timeout(Duration::from_secs(1))
        .ack_timeout(Duration::from_secs(2));
    match resolving(b).resume(Resolution::Found { v4: true }) {
        ConnectStep::Open(state) => {
            let client = connected(state.resume(Ok(()))).unwrap();
            assert_eq!(client.compression_level, 0);
            assert_eq!(client.write_timeout, Some(Duration::from_secs(1)));
            assert_eq!(client.ack_timeout, Some(Duration::from_secs(2)));
            assert!(client.usable);
        }
        _ => panic!("no connection is opened"),
    }
    match Client::connect() {
        ConnectStep::Resolve(state) => match state.resume(Resolution::Found { v4: true }) {
            ConnectStep::Open(state) => assert!(matches!(
                connected(state.resume(Err(ErrorKind::ConnectionRefused.into()))),
                Err(Error::Io(_))
            )),
            _ => panic!("no connection is opened"),
        },
        _ => panic!("nothing is looked up"),
    }
}

#[test]
fn nothing_is_sent_for_no_events() {
    let (client, n) = done(client(3).send(&[]));
    assert_eq!(n.unwrap(), 0);
    assert!(client.usable);
}

#[test]
fn partial_acks_do_not_end_the_waiting() {
    let (_, mut step) = write_all(client(0).send(&events(&["1", "2", "3"])));
    for seq in [0, 1, 0, 2] {
        step = waiting(step).resume(Reply::Frame(Frame::Ack(seq)));
    }
    let (_, n) = done(waiting(step).resume(Reply::Frame(Frame::Ack(7))));
    assert_eq!(n.unwrap(), 3);
}

#[test]
fn an_event_over_the_limit_is_found_out_on_its_turn() {
    let large = Bytes::from(vec![0u8; 16 * 1024 * 1024 + 1]);
    let step = client(0).send(&[Bytes::from_static(b"small"), large.clone()]);
    let (frames, step) = write_all(step);
    assert_eq!(frames.len(), 2);
    let (client, res) = done(step);
    assert!(matches!(
        res,
        Err(Error::FrameTooLarge { size: 16_777_217, max: 16_777_216 })
    ));
    // The server is left inside a window.
    assert!(!client.usable);
}

#[test]
fn a_spoiled_connection_sends_no_more() {
    let one = events(&["1"]);

    let (_, state) = fed(client(0).send(&one));
    assert!(state.timeout().is_none());
    let (a, res) = done(state.resume(WriteOutcome::TimedOut));
    assert!(matches!(res, Err(Error::WriteTimeout)));

    let (_, step) = write_all(client(0).send(&one));
    let (b, res) = done(waiting(step).resume(Reply::Frame(Frame::Window(1))));
    assert!(matches!(res, Err(Error::UnexpectedFrame("expected Ack"))));

    let (_, step) = write_all(client(0).send(&one));
    let (c, res) = done(waiting(step).resume(Reply::Failed(Error::InvalidFrame("x"))));
    assert!(matches!(res, Err(Error::InvalidFrame("x"))));

    let (_, mut step) = (0, client(0).send(&one));
    while let SendStep::Feed(_, state) = step {
        step = state.resume(WriteOutcome::Written);
    }
    let (d, res) = match step {
        SendStep::Flush(state) => {
            assert!(state.timeout().is_none());
            done(state.resume(WriteOutcome::TimedOut))
        }
        _ => panic!("nothing is flushed"),
    };
    assert!(matches!(res, Err(Error::WriteTimeout)));

    for client in [a, b, c, d] {
        assert!(!client.usable);
        let (client, res) = done(client.send(&one));
        assert!(matches!(res, Err(Error::ConnectionClosed)));
        let (_, res) = done(client.send(&[]));
        assert!(matches!(res, Err(Error::ConnectionClosed)));
    }
}

#[test]
fn failures_of_the_transport_are_handed_on() {
    let one = events(&["1"]);
    let (_, state) = fed(client(0).send(&one));
    let (client_a, res) = done(state.resume(WriteOutcome::Failed(Error::ConnectionClosed)));
    assert!(matches!(res, Err(Error::ConnectionClosed)));
    let (_, step) = write_all(client(0).send(&one));
    let (client_b, res) = done(waiting(step).resume(Reply::Closed));
    assert!(matches!(res, Err(Error::ConnectionClosed)));
    let (_, step) = write_all(client(0).send(&one));
    let broken = Error::Io(ErrorKind::BrokenPipe.into());
    let (client_c, res) = done(waiting(step).resume(Reply::Failed(broken)));
    assert!(matches!(res, Err(Error::Io(_))));
    assert!(client_a.usable && client_b.usable && client_c.usable);
}

#[test]
fn ordinary_batches_fit() {
    assert!(fits(&[]));
    assert!(fits(&events(&["1", "22"])));
}

#[test]
fn events_are_sent_as_they_were_serialized() {
    let value = serde_json::Value::from(vec![1, 2]);
    let number = serde_json::Value::from(7);
    assert_eq!(
        payloads(vec![serde_json::to_vec(&value), serde_json::to_vec(&number)]).unwrap(),
        ["[1,2]", "7"]
    );
    assert!(payloads(vec![]).unwrap().is_empty());

    // Only strings and numbers can be the keys of an object.
    let odd: std::collections::BTreeMap<(u8, u8), u8> = [((1, 2), 3)].into_iter().collect();
    let broken: Result<serde_json::Value, serde_json::Error> = serde_json::from_str("");
    let serialized =
        vec![serde_json::to_vec(&number), serde_json::to_vec(&odd), Err(broken.unwrap_err())];
    match payloads(serialized) {
        Err(Error::Serialization(text)) => assert_eq!(text, "key must be a string"),
        other => panic!("expected Serialization, got {other:?}"),
    }
}
