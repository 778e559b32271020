# sockudo_ws

A WebSocket library (RFC 6455, permessage-deflate of RFC 7692, and the Extended
CONNECT openings of RFC 8441 and RFC 9220) whose behaviour is stated in contracts
and proved by Verus.

The library does no I/O. Frames, messages, compression negotiation, handshakes,
heartbeats and the life of a connection are functions and state machines over
plain values; the caller reads, writes and keeps time, and the library decides.

## Layout

- `src/`: the verified library.
  - `octets`, `strings`, `text`, `utf8`, `simd`, `buffer`: bytes, text and buffers.
  - `frame`, `mask`, `protocol`, `codec`: frames and messages.
  - `deflate`, `deflate_stream`, `compression`, `compressed_protocol`:
    compression, its negotiation and the protocol that uses it.
  - `grammar`, `handshake`, `extended_connect`, `http2`, `http3`, `client`,
    `axum_integration`: the openings of a connection.
  - `heartbeat`, `framing`, `session`, `halves`, `driver`: a connection from its
    opening to its end, whole or split into halves.
  - `io_uring`, `bench`: registered buffers, and the counts of a benchmark.
  - `laws`, `handshake_laws`, `deflate_laws`, `compressed_laws`, `session_laws`:
    theorems that span several functions.
- `tests/`: tests on concrete values.
- `app/`: transports and runtimes around the library (Tokio, Compio, io_uring,
  HTTP/2, HTTP/3, Axum).

## Trust

Calls into other crates stand behind wrappers whose contracts are believed. Each
says in its doc comment what it claims of the function it calls, and what it
leaves unsaid.
