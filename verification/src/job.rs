//! The uniform job model: every event the relay reacts to — a fresh
//! connection, a socket that became readable, a connection that must be torn
//! down — is one `Job`, tagged with the population it concerns.

use vstd::prelude::*;

verus! {

/// The population a job concerns: the pool of command-submitting clients or
/// the pool of broadcast-receiving nodes.
#[derive(Clone, Copy, PartialEq, Eq, Structural, Debug)]
pub enum From {
    Client,
    Node,
}

/// A freshly accepted connection, before it has been filed into a pool.
///
/// The socket itself stays with the caller; `id` is the caller's token for
/// it. `peer` is the remote address under which the connection will be keyed,
/// or `None` when the address could not be obtained, in which case the
/// dispatcher discards the connection attempt.
#[derive(Clone, Copy, Debug)]
pub struct ConnHandle {
    pub id: u64,
    pub peer: Option<u64>,
}

/// A unit of work flowing through the event loop.
///
/// Jobs are transient: produced by one loop iteration and consumed at once,
/// except while a `Drop` sits in the deadline queue awaiting its instant.
pub enum Job {
    /// A new connection to file into the pool chosen by the tag.
    Accept(ConnHandle, From),
    /// The connection keyed by this address became readable.
    Read(u64, From),
    /// Tear down the connection keyed by this address, if still present.
    Drop(u64, From),
}

} // verus!
