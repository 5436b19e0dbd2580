# Kraft

A distributed key-value store on Raft. The library in `src/` is verified with
Verus: every function states what it returns or changes, and the laws of the
store are proved from those contracts.

## Layout

- `src/raft` - the Raft state machine of one node. `shared_state.rs` holds the
  state and its model `StateView`; `follower`, `candidate.rs` and `leader` are
  its roles; `executor.rs` and `state_machine_worker.rs` drive them;
  `broadcast.rs` gives committed entries to readers; `votes.rs` gives votes.
  `laws.rs` and `log_laws.rs` state what holds of the whole.
- `src/quorum` - the messages between nodes, and the worker of one peer.
- `src/persistence` - the worker that keeps the log and the votes on disk, the
  model of the log file, and the recovery of the log.
- `src/query` - the worker that answers reads.
- `src/service_utils` - the byte layout of a log entry, errors, time, random
  numbers, texts, tracing contexts, and the channels to other threads.
- `src/config`, `src/startup.rs` - the rules of a configuration, and what a node
  works out before it starts.
- `src/runtime_core`, `src/server.rs`, `src/client.rs`,
  `src/kraft_replication_schema` - the task buffer, the answers to other nodes,
  load tests, and the commands of the replication schema.
- `tests/` - tests of the library from outside.
- `app/` - a node: files, threads, clocks, metrics and connections around the
  library.

## How a worker meets the world

A worker of the library never waits. What has arrived is in its inbox, and what
it wants done is in its outbox, both plain lists; `app/` fills the one and
delivers the other. Channels that the workers send to directly are outside
types; the model keeps what was offered to them and whether it was accepted.
