# lumberjack_sender

A log sender that batches messages, turns them into JSON events and sends them
over the lumberjack protocol to one of several endpoints.

- `src/` holds the decisions, verified with Verus: which endpoint to use next,
  how long a failed one is left alone, when and where a send is tried again, how
  a batch is collected and what is counted. The files ending in `_laws` state
  what holds of every pool, send, event and sender.
- `app/` holds the threads, sockets, queues and logging around it.
- `tests/` runs the library from outside.

The send loop is driven from outside: `LumberjackSender` returns an `Action`,
the caller does it and reports back, and gets the next one.

The library calls `rand` for the jitter of cooldowns, `serde_json` for the events
and `std::time::Instant` for the time. What it takes for granted of them stands
in `src/clock.rs` and `src/json.rs`.
