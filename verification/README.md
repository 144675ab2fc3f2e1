# lumberjack

The Lumberjack v2 protocol, as Elastic Beats and Logstash speak it, in verified Rust.

`src/` is the protocol: frames and their bytes, zlib payloads, batches, the course of
a connection on the server, sending and connecting on the client. All of it computes;
none of it reads or writes. What takes time — a frame to read, a port to try, an
acknowledgement to wait for — is a state that says what is to be done, and that goes
on with what came of it. Every function has a contract, and Verus proves it.

`app/` is the asynchronous client and server around it: sockets, timers, channels and
files.

## Modules

| module | what it holds |
|---|---|
| `frame`, `codec` | the four frames, and how they are written and read |
| `zlib` | compressing, and inflating up to a limit |
| `connection` | the states of a connection, from a window to the acknowledgement |
| `server` | batches, settings, the count of open connections |
| `client` | settings, and the states of sending a batch |
| `connect`, `ports` | the states of connecting, and the order of local ports |
| `tls` | acceptors and connectors from PEM and DER |
| `error`, `text`, `time` | errors and their messages, decimal numbers, spans of time |
| `buffer` | what is relied on of the `bytes` crate |
| `laws` | what holds of all frames and streams |
| `exchange` | what holds of client and server together |
| `service` | what holds of all the connections of a server |

## What is proved

- A frame that was written is read back, whatever follows it, and in whatever portions
  it arrives. No payload over the limit gets through, inflated or not.
- A server delivers exactly the events that a client sends, in order, compressed or
  not. A batch is handed on once it is complete, and acknowledged once, by its last
  sequence number.
- What becomes of a connection is up to what happens on it alone.
- Keepalives, `Ack(0)`, never end the waiting on either side.
- Every local port of a range is tried once before connecting fails for want of one.

What the outside crates do is stated, not proved, beside the functions that call them.

## Error policy

- A stream that breaks the protocol ends its connection: there is no telling where the
  next frame begins.
- Payloads are not looked at. A batch yields each event's bytes as they were received.
- A connection that ends in an error ends alone: the others go on, and new ones are
  accepted.
- A client whose write or whose wait for an acknowledgement has timed out sends no
  further batch. Nor does one whose server has sent something that does not belong
  there, or whose own event turned out too large inside a window.
