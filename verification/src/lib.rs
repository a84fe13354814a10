//! Capture, build and persist snapshots of cache-warming reads for
//! source-control repository backends.
//!
//! A recording decorator wraps a repository's filenode-lookup capability and
//! captures every successful read into a bounded, best-effort channel; a
//! builder drains the channel into an immutable snapshot; a persister commits
//! the snapshot to a chosen location, gated strictly on warmup success; a
//! runner drives one such pipeline per repository and aggregates outcomes.

pub mod channel;
pub mod codec;
pub mod mcrouter;
pub mod orchestrator;
pub mod record;
pub mod runner;
pub mod sink;
pub mod snapshot;
pub mod store;
