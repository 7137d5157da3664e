# bytelink

Framed byte transport over TCP and UDP, with its rules verified by Verus.

- `src/` holds the rules: byte channels, frames, backlogs, the routing of a server's
  events, and what each outcome of the network means to a caller. The functions
  carry contracts, and the `law_...` proof functions state what holds of several of
  them together. Where other threads have a part, as on a channel that is shared,
  each end keeps a record of what it found behind the lock and what it left there,
  and the contracts and laws speak of these records.
- `app/` holds the sockets, threads and tasks that follow these rules.
- `tests/` runs the rules on concrete values.

What is taken on trust of `bytes`, `crossbeam`, `dashmap`, `flume`, `tokio` and std stands
where it is used: `buffer.rs`, `endpoint.rs`, `outbox.rs`, `shared.rs` and
`udpserver.rs`.
