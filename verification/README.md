# x32osc

A verified client for X32 mixing consoles, which speak OSC over UDP.

- `src/` is the library, proved with Verus: the addresses and messages that the console is asked
  with, the exchange of a request and its reply, the fan-out of received packets, and the reading of
  replies, meter blobs among them. Floats are held by their bit patterns. The wire format itself is
  the `rosc` crate's and the broadcast channel is `tokio`'s; what is trusted of them stands in
  `src/wire.rs`, `src/feed.rs` and `src/listen.rs`.
- `app/` is a program around it: the socket, the awaiting, and the arithmetic on floats.
- `tests/` runs the library with the real crates.
