//! The decisions of a log sender that works over several endpoints.
//!
//! Messages are collected into batches, made into JSON events that say where they
//! come from, and sent to one of several endpoints of the same service. An
//! endpoint that fails is left alone for a while, and the batch is tried once more
//! elsewhere.
//!
//! Nothing here waits or talks to the outside. `sender` and `retry` go from step to
//! step: each step says what is to be done, and is told what came of it. What the
//! clock shows and what chance brings is read where it is needed; next to each
//! function that reads it stands one, with `_at` at the end of its name, that takes
//! it as an argument.
//!
//! - `endpoint`, `endpoint_laws`: one endpoint and its health
//! - `pool`, `pool_laws`: the endpoints, and which of them to use next
//! - `retry`, `retry_laws`, `step_laws`: sending over a pool
//! - `event`, `event_laws`: from messages to events
//! - `sender`, `sender_laws`, `loop_laws`: the send loop
//! - `lifecycle`: starting and stopping senders
//! - `stats`: counters
//! - `clock`, `json`, `text`: time and chance, JSON documents, short texts
pub mod clock;
pub mod endpoint;
pub mod endpoint_laws;
pub mod event;
pub mod event_laws;
pub mod json;
pub mod lifecycle;
pub mod loop_laws;
pub mod pool;
pub mod pool_laws;
pub mod retry;
pub mod retry_laws;
pub mod sender;
pub mod sender_laws;
pub mod stats;
pub mod step_laws;
pub mod text;
