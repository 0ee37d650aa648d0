# netbench

A library for network benchmarks: scenarios that say what every client,
server, connection and stream does, and the machinery that runs them.

- `src/scenario.rs`, `src/scenario/`: scenarios, their builders, and the
  byte description that a scenario id is the SHA-256 digest of.
- `src/op.rs`: the operations of connections, clients and routers.
- `src/connection.rs`: threads that run connection ops over a transport,
  the driver that runs a whole connection, and checkpoints.
- `src/connection/multiplexed.rs` and `frame.rs`: streams multiplexed over
  one byte transport, with flow control, and the frame codec.
- `src/connection/trace.rs`: observers of connection threads.
- `src/vm/`: the byte queue, the server operation codec, and the decisions
  of benchmark servers driven by a controller.
- `src/h09.rs`, `src/path.rs`, `src/ext.rs`: HTTP/0.9 request lines, path
  MTU limits, and byte and time units.
- `app/`: the command-line driver that runs scenario endpoints over TCP.

The functions of `src/` are verified against their contracts with Verus,
except the small wrappers marked `#[verifier::external_body]`: each makes one
call into `bytes`, `tokio`, `sha2` or std, and its contract is trusted, as its
doc comment says.
