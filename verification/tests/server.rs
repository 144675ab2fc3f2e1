use bytes::{Bytes, BytesMut};
use lumberjack::connection::{run_connection, run_secured, AckEvent, AwaitingAck};
use lumberjack::connection::{Input, Reading, Writing};
use lumberjack::server::{AcceptEvent, AcceptStep};
use lumberjack::{Batch, ConnectionConfig, Error, Frame, Next, Server, ServerBuilder};
use std::time::Duration;

fn config(keepalive: Option<Duration>) -> ConnectionConfig {
    ConnectionConfig { max_frame_size: 1024, keepalive }
}

fn json(seq: u32, data: &'static [u8]) -> Frame {
    Frame::Json { seq, data: Bytes::from_static(data) }
}

fn reading(next: Next) -> Reading {
    match next {
        Next::Read(state) => state,
        _ => panic!("the connection does not read"),
    }
}

fn feed(next: Next, frame: Frame) -> Next {
    reading(next).resume(Input::Frame(frame))
}

fn deliver(next: Next) -> (Batch, AwaitingAck) {
    match next {
        Next::Deliver(batch, state) => match state.resume(true) {
            Next::AwaitAck(waiting) => (batch, waiting),
            _ => panic!("the connection does not wait"),
        },
        _ => panic!("no batch is delivered"),
    }
}

fn written(next: Next) -> (Frame, Writing) {
    match next {
        Next::Write(frame, state) => (frame, state),
        _ => panic!("nothing is written"),
    }
}

fn ended(next: Next) -> Result<(), Error> {
    match next {
        Next::Done(result) => result,
        _ => panic!("the connection goes on"),
    }
}

fn compressed(frames: &[Frame]) -> Frame {
    let mut inner = BytesMut::new();
    for frame in frames {
        frame.encode(&mut inner);
    }
    Frame::Compressed(inner.freeze())
}

#[test]
fn explicit_ack_sends_last_seq() {
    let batch = Batch::new(vec![Bytes::from_static(b"null")], 7);
    assert_eq!(batch.ack(), Some(7));
}

#[test]
fn drop_without_ack_still_sends_last_seq() {
    let mut batch = Batch::new(vec![Bytes::from_static(b"null"), Bytes::from_static(b"null")], 12);
    assert_eq!(batch.release(), Some(12));
}

#[test]
fn double_ack_is_a_noop() {
    let mut batch = Batch::new(vec![], 3);
    assert_eq!(batch.release(), Some(3));
    assert_eq!(batch.release(), None);
    assert_eq!(batch.ack(), None);
}

#[test]
fn server_processes_uncompressed_batch() {
    let next = run_connection(config(None));
    let next = feed(next, Frame::Window(2));
    let next = feed(next, json(1, b"{\"a\":1}"));
    let next = feed(next, json(2, b"{\"b\":2}"));

    let (batch, waiting) = deliver(next);
    assert_eq!(batch.len(), 2);
    assert_eq!(&batch.events()[0][..], b"{\"a\":1}");
    assert_eq!(&batch.events()[1][..], b"{\"b\":2}");
    assert!(waiting.keepalive().is_none());

    let (frame, state) = written(waiting.resume(AckEvent::Acked(batch.ack().unwrap())));
    assert_eq!(frame, Frame::Ack(2));
    assert!(ended(reading(state.resume(Ok(()))).resume(Input::EndOfStream)).is_ok());
}

#[test]
fn server_forwards_payloads_without_parsing() {
    let next = run_connection(config(None));
    let next = feed(next, Frame::Window(2));
    let next = feed(next, json(1, b"not json"));
    let next = feed(next, json(2, b"{\"ok\":true}"));

    let (batch, waiting) = deliver(next);
    assert_eq!(batch.len(), 2);
    assert!(!batch.is_empty());
    assert_eq!(batch.events()[0].as_ref(), b"not json");
    assert_eq!(batch.events()[1].as_ref(), b"{\"ok\":true}");

    let (frame, state) = written(waiting.resume(AckEvent::Lost));
    assert_eq!(frame, Frame::Ack(2));
    assert!(ended(reading(state.resume(Ok(()))).resume(Input::EndOfStream)).is_ok());
    assert_eq!(batch.into_events().len(), 2);
}

#[test]
fn server_rejects_seq_out_of_order() {
    let next = run_connection(config(None));
    let next = feed(next, Frame::Window(2));
    let next = feed(next, json(5, b"{}"));
    let next = feed(next, json(3, b"{}"));
    assert!(matches!(ended(next), Err(Error::SeqOutOfOrder { got: 3, prev: 5 })));
}

#[test]
fn server_sends_ack0_keepalive_while_user_holds_batch() {
    let interval = Duration::from_millis(20);
    let next = run_connection(config(Some(interval)));
    let next = feed(next, Frame::Window(1));
    let next = feed(next, json(1, b"{}"));
    let (batch, mut waiting) = deliver(next);

    for _ in 0..3 {
        assert_eq!(waiting.keepalive(), Some(interval));
        let (frame, state) = written(waiting.resume(AckEvent::Elapsed));
        assert_eq!(frame, Frame::Ack(0));
        waiting = match state.resume(Ok(())) {
            Next::AwaitAck(waiting) => waiting,
            _ => panic!("the connection does not wait"),
        };
    }

    let (frame, state) = written(waiting.resume(AckEvent::Acked(batch.ack().unwrap())));
    assert_eq!(frame, Frame::Ack(1));
    assert!(ended(reading(state.resume(Ok(()))).resume(Input::EndOfStream)).is_ok());
}

#[test]
fn active_connections_tracks_open_and_closed() {
    let mut server = Server::builder().bind();
    assert_eq!(server.active_connections(), 0);
    for _ in 0..3 {
        assert!(matches!(server.accept(AcceptEvent::Accepted), AcceptStep::Serve { .. }));
    }
    assert_eq!(server.active_connections(), 3);
    for _ in 0..3 {
        server.ended();
    }
    assert_eq!(server.active_connections(), 0);
}

#[test]
fn server_drop_stops_accept_loop() {
    let mut server = Server::builder().bind();
    assert!(matches!(server.accept(AcceptEvent::Shutdown), AcceptStep::Stop));
    assert!(matches!(server.accept(AcceptEvent::Failed), AcceptStep::Stop));
    assert_eq!(server.active_connections(), 0);
}

#[test]
fn a_batch_whose_events_are_taken_is_acknowledged() {
    let next = feed(feed(run_connection(config(None)), Frame::Window(1)), json(8, b"x"));
    let (batch, waiting) = deliver(next);
    assert_eq!(batch.into_events(), [Bytes::from_static(b"x")]);
    let (frame, _) = written(waiting.resume(AckEvent::Lost));
    assert_eq!(frame, Frame::Ack(8));
}

#[test]
fn plain_and_compressed_events_mix() {
    let next = run_connection(config(None));
    let next = feed(next, Frame::Window(5));
    let next = feed(next, compressed(&[json(1, b"1"), json(3, b"3")]));
    let next = feed(next, json(4, b"4"));
    let next = feed(next, compressed(&[]));
    let next = feed(next, compressed(&[json(7, b"7"), json(9, b"9"), json(2, b"2")]));
    let (batch, waiting) = deliver(next);
    let events: Vec<&[u8]> = batch.events().iter().map(|e| e.as_ref()).collect();
    assert_eq!(events, [b"1".as_ref(), b"3", b"4", b"7", b"9"]);
    let (frame, _) = written(waiting.resume(AckEvent::Acked(batch.ack().unwrap())));
    assert_eq!(frame, Frame::Ack(9));
}

#[test]
fn a_connection_that_fails_leaves_the_others_alone() {
    let mut server = Server::builder().bind();
    let mut accepted = Vec::new();
    for _ in 0..2 {
        match server.accept(AcceptEvent::Accepted) {
            AcceptStep::Serve { config, .. } => accepted.push(run_connection(config)),
            AcceptStep::Stop => panic!("the server stops"),
        }
    }
    let other = feed(accepted.pop().unwrap(), Frame::Window(1));
    assert!(ended(feed(accepted.pop().unwrap(), Frame::Ack(1))).is_err());
    server.ended();
    assert_eq!(server.active_connections(), 1);

    let (batch, waiting) = deliver(feed(other, json(1, b"x")));
    let (frame, _) = written(waiting.resume(AckEvent::Acked(batch.ack().unwrap())));
    assert_eq!(frame, Frame::Ack(1));
    assert!(matches!(server.accept(AcceptEvent::Accepted), AcceptStep::Serve { .. }));
    assert_eq!(server.active_connections(), 2);
}

#[test]
fn a_handshake_comes_first() {
    assert!(matches!(run_secured(config(None), Ok(())), Next::Read(_)));
    let reset = std::io::ErrorKind::ConnectionReset;
    match ended(run_secured(config(None), Err(reset.into()))) {
        Err(Error::Io(e)) => assert_eq!(e.kind(), reset),
        other => panic!("expected an io error, got {other:?}"),
    }
}

#[test]
fn keepalives_can_be_off() {
    let next = feed(run_connection(config(None)), Frame::Window(0));
    let (_batch, waiting) = deliver(next);
    assert!(matches!(waiting.resume(AckEvent::Elapsed), Next::AwaitAck(_)));
}

#[test]
fn a_compressed_frame_counts_as_the_frames_in_it() {
    let next = run_connection(config(None));
    let next = feed(next, Frame::Window(4));
    let next = feed(next, json(1, b"one"));
    let next = feed(next, compressed(&[json(2, b"two"), json(4, b"four")]));
    let next = feed(next, json(9, b"nine"));
    let (batch, waiting) = deliver(next);
    let events: Vec<&[u8]> = batch.events().iter().map(|e| e.as_ref()).collect();
    assert_eq!(events, [b"one".as_ref(), b"two", b"four", b"nine"]);
    let (frame, _) = written(waiting.resume(AckEvent::Lost));
    assert_eq!(frame, Frame::Ack(9));
}

#[test]
fn what_goes_beyond_the_window_is_not_looked_at() {
    let next = run_connection(config(None));
    let next = feed(next, Frame::Window(1));
    let next = feed(next, compressed(&[json(1, b"one"), Frame::Ack(7)]));
    let (batch, _) = deliver(next);
    assert_eq!(batch.len(), 1);
}

#[test]
fn an_empty_window_is_an_empty_batch() {
    let (batch, waiting) = deliver(feed(run_connection(config(None)), Frame::Window(0)));
    assert!(batch.is_empty());
    let (frame, _) = written(waiting.resume(AckEvent::Lost));
    assert_eq!(frame, Frame::Ack(0));
}

#[test]
fn a_batch_begins_with_a_window() {
    for frame in [json(1, b"{}"), Frame::Ack(1), compressed(&[])] {
        assert!(matches!(
            ended(feed(run_connection(config(None)), frame)),
            Err(Error::UnexpectedFrame("expected Window at batch start"))
        ));
    }
}

#[test]
fn only_events_stand_inside_a_window() {
    for frame in [Frame::Window(1), Frame::Ack(1)] {
        let next = feed(run_connection(config(None)), Frame::Window(1));
        assert!(matches!(
            ended(feed(next, frame)),
            Err(Error::UnexpectedFrame("expected J or C inside window"))
        ));
    }
}

#[test]
fn only_events_stand_inside_a_compressed_frame() {
    let next = feed(run_connection(config(None)), Frame::Window(2));
    assert!(matches!(
        ended(feed(next, compressed(&[json(1, b""), Frame::Window(1)]))),
        Err(Error::UnexpectedFrame("compressed payload must contain only J frames"))
    ));

    let next = feed(run_connection(config(None)), Frame::Window(2));
    let cut = Frame::Compressed(Bytes::from_static(b"2J\0\0\0\x01"));
    assert!(matches!(
        ended(feed(next, cut)),
        Err(Error::InvalidFrame("compressed payload truncated"))
    ));

    let next = feed(run_connection(config(None)), Frame::Window(2));
    let long = compressed(&[Frame::Json { seq: 1, data: Bytes::from(vec![0u8; 1025]) }]);
    assert!(matches!(
        ended(feed(next, long)),
        Err(Error::FrameTooLarge { size: 1025, max: 1024 })
    ));

    let next = feed(run_connection(config(None)), Frame::Window(2));
    assert!(matches!(
        ended(feed(next, compressed(&[json(2, b""), json(2, b"")]))),
        Err(Error::SeqOutOfOrder { got: 2, prev: 2 })
    ));
}

#[test]
fn sequence_numbers_begin_above_zero() {
    let next = feed(run_connection(config(None)), Frame::Window(1));
    assert!(matches!(
        ended(feed(next, json(0, b""))),
        Err(Error::SeqOutOfOrder { got: 0, prev: 0 })
    ));
}

#[test]
fn every_batch_counts_anew() {
    let mut next = run_connection(config(None));
    for _ in 0..2 {
        next = feed(feed(next, Frame::Window(1)), json(1, b"x"));
        let (_batch, waiting) = deliver(next);
        let (_, state) = written(waiting.resume(AckEvent::Lost));
        next = state.resume(Ok(()));
    }
    assert!(matches!(next, Next::Read(_)));
}

#[test]
fn failures_end_the_connection() {
    let next = run_connection(config(None));
    assert!(matches!(
        ended(reading(next).resume(Input::Failed(Error::InvalidFrame("unknown frame type")))),
        Err(Error::InvalidFrame("unknown frame type"))
    ));

    let next = feed(run_connection(config(None)), Frame::Window(1));
    assert!(matches!(
        ended(reading(next).resume(Input::EndOfStream)),
        Err(Error::ConnectionClosed)
    ));

    let next = feed(run_connection(config(None)), Frame::Window(0));
    match next {
        Next::Deliver(_, state) => assert!(ended(state.resume(false)).is_ok()),
        _ => panic!("no batch is delivered"),
    }

    let (_batch, waiting) = deliver(feed(run_connection(config(None)), Frame::Window(0)));
    let (_, state) = written(waiting.resume(AckEvent::Lost));
    assert!(matches!(
        ended(state.resume(Err(Error::ConnectionClosed))),
        Err(Error::ConnectionClosed)
    ));
}

#[test]
fn the_settings_of_a_server() {
    let b = ServerBuilder::default();
    assert_eq!(b.keepalive, Some(Duration::from_secs(15)));
    assert_eq!(b.channel_capacity, 128);
    assert_eq!(b.max_frame_size, 16 * 1024 * 1024);
    assert!(b.tls.is_none());

    let b = b.keepalive(Duration::from_millis(5)).channel_capacity(1).max_frame_size(99);
    assert_eq!(b.keepalive, Some(Duration::from_millis(5)));
    let mut server = b.no_keepalive().bind();
    assert_eq!(server.channel_capacity(), 1);
    match server.accept(AcceptEvent::Accepted) {
        AcceptStep::Serve { config, handshake } => {
            assert_eq!(config.max_frame_size, 99);
            assert!(config.keepalive.is_none());
            assert!(!handshake);
        }
        AcceptStep::Stop => panic!("the server stops"),
    }
}
