# tokio_mini_redis

A verified library for a small Redis-protocol server, and the programs
around it.

- `src/` (verified with Verus):
  - `frame.rs` — protocol frames, the bytes a frame is written as, and
    decoding through the frame checker and parser of `mini_redis`;
  - `connection.rs` — the read buffer of a connection (a `bytes::BytesMut`)
    and the steps of reading a frame;
  - `command.rs` — commands as `mini_redis` reads them, the key-value store,
    and the answer to each received frame;
  - `executor.rs` — tasks, their scheduling channel, and a delay future's
    decisions.
- `app/` — the servers, clients and echo programs, the socket I/O, and the
  executor's loop, wakers and timer threads (`cargo run -- <program>`).
- `tests/` — tests of the library.
