# kcptun

A tunnel for TCP connections over [KCP](https://github.com/skywind3000/kcp): reliable streams made
of UDP datagrams. The program is a server with the argument `server` and a client without it.

- `src/` is the library, verified with Verus. Given datagrams, the time and the outcome of each
  channel operation, it decides everything else: what is read, what is sent, where a datagram goes.
  - `engine.rs` calls the protocol engine of the `kcp` crate and says what is believed of it, in
    terms of `protocol.rs`.
  - `io.rs` puts a read buffer in front of the engine.
  - `stream.rs` holds the two ends of a connection, `listener.rs` the server's table of connections.
  - `output.rs`, `datagram.rs`, `clock.rs`, `delay.rs`, `console.rs` and `error.rs` hold the rest.
  - `laws.rs` states what holds of connections as a whole, above all that what is read at one end is
    the beginning of what was written at the other, message by message. `server_laws.rs` states
    what holds of the table of connections.
- `app/` is the program around it: sockets, channels, timers and tasks.
- `tests/` runs the library with the real engine.
- `extras/cargo/` holds build settings.

## Building

The `kcp` crate has to be built without arithmetic overflow checks, since its counters and its clock
go round. Optimised builds are. A default debug build is not: there the engine would stop the program
when a counter or the clock goes round, or when a datagram comes in whose fragment byte is 255 or
whose numbers or time are far from the engine's own. `extras/cargo/config.toml` switches the checks
off for that crate in debug and test builds:

    cargo --config extras/cargo/config.toml build

The library hands out engines only to a program that has found the arithmetic to go round
(`GoesRound`). The program in `app/` finds out when it starts, by a trial, and does not go on where
the trial stops. The test `the_engine_goes_round` fails in a build with such checks.
