# cake_server

A websocket server for a small multiplayer game: players join rooms by name,
the first player of a room is its host, and what a player sends is relayed to
the others with their id spliced in.

- `src/` is the library, verified with Verus:
  - `wire.rs`: player ids as little-endian single-precision float bytes, and
    decimal numbers in text, each with its read-back law;
  - `rooms.rs`: players, rooms, and the table of rooms by name (names distinct);
  - `message.rs`: websocket messages as plain values and their recipients;
  - `session.rs`: joining a room, planning and applying a relay, leaving;
  - `handshake.rs`: the decision on an HTTP request (health check, refusal,
    upgrade and what the upgraded connection is for);
  - `laws.rs`: properties that span those operations.
- `app/` runs the server with hyper, tokio and tokio-tungstenite: it turns
  requests and frames into the library's values, performs the sends the
  library asks for, and reports back which went through.
- `tests/` runs the library on concrete values.
