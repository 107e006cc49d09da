//! Errors of the receiving side.

use vstd::prelude::*;

verus! {

/// What can go wrong while receiving.
#[derive(Debug, PartialEq, Eq, Structural)]
pub enum Error {
    /// The reordering buffer filled up before the handshake completed.
    RecvBufferOverrunOnStart,
    /// A packet larger than the assumed MTU arrived; its size.
    MtuLessThanReal { packet_size: u16 },
    /// The runtime could not run the protocol task.
    SpawnError,
    /// The peer stopped sending.
    TimedOut,
}

} // verus!
