# can_bridge

The protocol core of a daemon that serves SocketCAN interfaces to network
clients, written in Verus with its contracts proved.

- `src/format.rs` — the binary wire format as mathematics: messages, the
  bytes that encode them, and the parser that reads them.
- `src/binary_message.rs` — the executable encoder and decoder, proved equal
  to the format.
- `src/codec_laws.rs` — what the format promises as a whole: round trips,
  partial packets, packets back to back, client and daemon types kept apart,
  trailing bytes ignored, truncated payloads refused.
- `src/hex.rs` — lower-case hex text of frame data and reading it back.
- `src/protocol.rs`, `src/frame.rs` — JSON-mode messages and CAN frame events.
- `src/ports.rs`, `src/discovery_stub.rs`, `src/service.rs` — the ports to the
  machine and the application's answers; a frame to send comes back as the
  exact frame to transmit, and `app/` performs the transmission.
- `src/subscription.rs`, `src/session.rs`, `src/json_session.rs` — per
  connection state machines for binary and JSON sessions: the client speaks
  first and the daemon answers its hello; bytes behind a wrong magic are
  skipped up to the next place where a packet could start; a packet of an
  unknown type is answered with an error and the session goes on; a byte
  stream is read the same however it is split into reads; a blank JSON line
  gets no reply.
- `src/text.rs` — the texts that name requests in error messages, written
  as `Debug` writes them (strings escaped).
- `app/` — the daemon: sockets, WebSocket routes, JSON (de)serialisation,
  the frame bus and `main`.
