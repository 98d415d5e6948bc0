# SyncUp game server

The room logic of SyncUp, a server-authoritative party game platform for up to twelve
players, written in Verus with its behaviour stated as `requires`/`ensures` contracts.

- `src/` is the verified library: rooms and their rules (joining, answers, scoring,
  Truth or Dare Spotlight turns, reactions, highlight votes, departures and expiry), the
  room table, question selection, snapshots, the live-connection request handling, and
  the laws in `src/laws.rs`.
- `app/` is the HTTP and WebSocket server around it (axum and tokio): it reads requests,
  hands them to the library, and sends back what it returns.
- `tests/` exercises the library on concrete values.
