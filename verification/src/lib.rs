//! A single-threaded relay core: clients submit line-based commands and the
//! server fans validated payloads out to every connected node.
//!
//! The crate holds the relay's decision logic: the deadline-ordered queue of
//! deferred jobs, the per-population connection pools, the line-protocol
//! parser, and the dispatcher that interprets each job against that state.
//! Socket handles and instants are represented by plain integers; the caller
//! that owns the real sockets performs the reads, writes and waits and feeds
//! their outcomes back in.

pub mod job;
pub mod pool;
pub mod protocol;
pub mod relay;
pub mod schedule;
pub mod stream;
