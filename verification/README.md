# websocket_fabric

The protocol logic of a WebSocket client/server library, written in Verus:
each function carries a `requires`/`ensures` contract, and Verus proves the
code against it.

## Layout

- `src/` — the verified library.
  - `message`, `error`, `config`: messages and frames, errors and their
    messages, server and heartbeat configuration.
  - `fragmentation`: splitting a message into frames and reassembling
    fragmented messages, with timeouts.
  - `compression`: per-message DEFLATE through flate2, the handshake offer
    and the parsing of the server's response.
  - `subprotocol`, `headers`, `http_map`: subprotocol negotiation, the
    handshake header map and its conversion to and from `http::HeaderMap`.
  - `ratelimit`: token buckets, per-connection and global limits.
  - `heartbeat`, `metrics`: ping/pong keepalive and connection statistics.
  - `backpressure`: the buffered-bytes gauge and the on/off state of
    backpressure, with hysteresis.
  - `pool`: the bookkeeping of a connection pool (which connection is
    reused, made, kept or evicted).
  - `session`: the decisions of a connection's message loop.
  - `text`, `time`, `assoc`: string, clock and association-list helpers.
- `tests/` — tests of the library, run against the compiled crate.
- `app/` — the asynchronous client, server and pool over tokio and
  tungstenite, and what needs floating point (backoff, the backpressure
  limits, ratios, latency formatting) or serde.

Laws that relate several functions (a reassembled message is the one that
was split, a header map survives the trip through `http`, the compression
offer parses back to its parameters, ...) are public proof functions named
`law_*` next to the functions they speak of.

A header map is built from a list of (name, value) pairs with
`HeaderMap::from_pairs`; the map has no `FromIterator` impl, because Verus
cannot give a contract to a method whose argument is a generic
`IntoIterator`. Callers collect their pairs into a `Vec` first.
