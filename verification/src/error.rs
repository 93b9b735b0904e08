//! Errors.

use vstd::prelude::*;

verus! {

/// What can go wrong while building or parsing a packet.
#[derive(Debug, Clone, Copy, PartialEq, Eq)]
pub enum ErrorKind {
    /// The buffer holds fewer bytes than the operation needs, or cannot grow
    /// to hold them.
    SmallBuffer,
    /// The bytes are not a packet of the expected protocol.
    InvalidPacket,
    /// A payload or an inner protocol was already attached to the builder.
    AlreadyDefined,
}

} // verus!
