use bytes::{Bytes, BytesMut};
use lumberjack::client::{Reply, WriteOutcome};
use lumberjack::connection::{run_connection, AckEvent, Input};
use lumberjack::{Batch, Client, ConnectionConfig, Frame, LumberjackCodec, Next, SendStep};

fn client(compression_level: u32) -> Client {
    Client { compression_level, write_timeout: None, ack_timeout: None, usable: true }
}

fn server() -> Next {
    run_connection(ConnectionConfig { max_frame_size: 1024 * 1024, keepalive: None })
}

/// Sends `events` to a server that waits for a batch, over bytes, and lets the
/// consumer acknowledge the batch.
fn exchange(client: Client, server: Next, events: &[Bytes]) -> (Client, u32, Batch, Next) {
    let mut codec = LumberjackCodec::new();
    let mut wire = BytesMut::new();
    let mut step = client.send(events);
    let waiting = loop {
        step = match step {
            SendStep::Feed(frame, state) => {
                codec.encode(frame, &mut wire).unwrap();
                state.resume(WriteOutcome::Written)
            }
            SendStep::Flush(state) => state.resume(WriteOutcome::Written),
            SendStep::AwaitReply(state) => break state,
            SendStep::Done(..) => panic!("the client gives up"),
        };
    };

    let mut next = server;
    let (mut batch, pending) = loop {
        next = match next {
            Next::Read(state) => {
                let frame = codec.decode(&mut wire).unwrap().unwrap();
                state.resume(Input::Frame(frame))
            }
            Next::Deliver(batch, state) => match state.resume(true) {
                Next::AwaitAck(pending) => break (batch, pending),
                _ => panic!("the server does not wait"),
            },
            _ => panic!("the server gives up"),
        };
    };
    assert!(wire.is_empty());

    let acked = batch.release().unwrap();
    let (frame, writing) = match pending.resume(AckEvent::Acked(acked)) {
        Next::Write(frame, state) => (frame, state),
        _ => panic!("nothing is acknowledged"),
    };
    let mut back = BytesMut::new();
    codec.encode(frame, &mut back).unwrap();
    let reply: Frame = codec.decode(&mut back).unwrap().unwrap();
    match waiting.resume(Reply::Frame(reply)) {
        SendStep::Done(client, n) => (client, n.unwrap(), batch, writing.resume(Ok(()))),
        _ => panic!("the client waits on"),
    }
}

#[test]
fn end_to_end_uncompressed_round_trip() {
    let mut client = client(0);
    let mut next = server();
    let mut total = 0;
    for i in 0..10u32 {
        let events = [Bytes::from(format!("{{\"i\":{i}}}"))];
        let (c, n, batch, after) = exchange(client, next, &events);
        assert_eq!(n, 1);
        assert_eq!(batch.events(), &events[..]);
        total += batch.len();
        client = c;
        next = after;
    }
    assert_eq!(total, 10);
}

#[test]
fn server_handles_multiple_concurrent_clients() {
    let mut total = 0;
    let mut connections: Vec<(Client, Next)> = (0..5).map(|_| (client(0), server())).collect();
    for i in 0..3u32 {
        let mut after = Vec::new();
        for (cid, (client, next)) in connections.into_iter().enumerate() {
            let events = [Bytes::from(format!("{{\"cid\":{cid},\"i\":{i}}}"))];
            let (client, n, batch, next) = exchange(client, next, &events);
            assert_eq!(n, 1);
            assert_eq!(batch.events(), &events[..]);
            total += batch.len();
            after.push((client, next));
        }
        connections = after;
    }
    assert_eq!(total, 15);
}

#[test]
fn compressed_batch_round_trip() {
    let events: Vec<Bytes> = (0..50)
        .map(|i| Bytes::from(format!("{{\"i\":{i},\"filler\":\"xxxxxxxxxxxxxxxx\"}}")))
        .collect();
    let (_, n, batch, _) = exchange(client(6), server(), &events);
    assert_eq!(n, 50);
    assert_eq!(batch.len(), 50);
    let first: serde_json::Value = serde_json::from_slice(&batch.events()[0]).unwrap();
    let last: serde_json::Value = serde_json::from_slice(&batch.events()[49]).unwrap();
    assert_eq!(first["i"], 0);
    assert_eq!(last["i"], 49);
    assert_eq!(batch.events(), &events[..]);
}

#[test]
fn compression_makes_no_difference_to_what_is_delivered() {
    let events =
        [Bytes::from_static(b""), Bytes::from_static(b"\0\xff"), Bytes::from_static(b"2W")];
    let (_, n, plain, _) = exchange(client(0), server(), &events);
    let (_, m, packed, _) = exchange(client(9), server(), &events);
    assert_eq!(n, m);
    assert_eq!(plain.events(), packed.events());
    assert_eq!(plain.events(), &events[..]);
}
