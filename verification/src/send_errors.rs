//! Errors of the sending side.

use vstd::prelude::*;

verus! {

/// What can go wrong while sending.
#[derive(Debug, PartialEq, Eq, Structural)]
pub enum Error {
    /// A message too long to fit in one packet, with its size.
    PayloadTooBig { size: usize },
    /// The runtime could not run the protocol task.
    SpawnError,
    /// The peer stopped answering.
    TimedOut,
    /// A length-prefixed input message ended early: `len` bytes were
    /// announced and `exp` were read.
    WrongLengthMessage { len: usize, exp: usize },
}

} // verus!
