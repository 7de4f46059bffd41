# picobroker-core

A minimal MQTT 3.1.1 broker core, written in Verus: the wire codec of every packet kind,
topic filters with `+` and `#`, the topic and session registries, the broker that routes
packets between sessions, and the server state that frames the bytes read from each
connection into packets.

Layout:

- `src/protocol/` — fixed-capacity strings and vectors, the remaining-length integer,
  length-prefixed strings, and one module per packet kind, each with its encoder, decoder
  and a proof that a well-formed packet reads back from its own bytes.
- `src/topics.rs` — topic names, wildcard matching, and the registry of subscriptions.
- `src/session.rs`, `src/broker.rs` — sessions with their receive and send queues, and the
  handling of each packet a client sends.
- `src/server/` — read buffers and framing, stream slots, and the decisions the network
  loop takes between one read or write and the next.
- `app/` — the asynchronous network traits and loops, and the Tokio and Embassy adapters.
