//! Buffering, batching and delivery rules of a log shipper for Grafana Loki.
//!
//! The crate holds the part of the shipper that decides: how captured events
//! are queued per severity, when a push request is prepared, what its bytes
//! are, and how failures are answered with backoff and, after a long outage,
//! with dropping what is buffered. Channels, timers and HTTP live with the
//! embedding program, which reports what happened and performs what the
//! engine asks for.

pub mod backoff;
pub mod buffer;
pub mod builder;
pub mod decode;
pub mod engine;
pub mod error;
pub mod http;
pub mod label_map;
pub mod labels;
pub mod layer;
pub mod level;
pub mod level_map;
pub mod logproto;
pub mod queue;
pub mod quote;
pub mod selector;
pub mod stats;
pub mod task;
pub mod text;
pub mod trace;
pub mod wire;
