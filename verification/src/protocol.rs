//! Protocol states and phase markers.
//!
//! A session is always in one protocol state (phase); the phase decides
//! which packet schema governs the next read or write. On the wire a state
//! travels as its varint index.

use vstd::prelude::*;

verus! {

/// The protocol states this library speaks. `Handshake` is index 0 on the
/// wire, `Status` index 1; `Login` and beyond are unsupported.
#[derive(Debug, Clone, Copy, PartialEq, Eq, Structural)]
pub enum ProtocolState {
    Handshake,
    Status,
}

impl ProtocolState {
    /// The varint index naming this state on the wire.
    pub open spec fn wire_index(self) -> i32 {
        match self {
            ProtocolState::Handshake => 0,
            ProtocolState::Status => 1,
        }
    }

    /// The varint index naming this state on the wire.
    pub fn to_wire_index(self) -> (r: i32)
        ensures
            r == self.wire_index(),
    {
        match self {
            ProtocolState::Handshake => 0,
            ProtocolState::Status => 1,
        }
    }
}

/// Phase marker: the session still negotiates the handshake schema.
#[derive(Debug)]
pub struct Handshake;

/// Phase marker: the session speaks the status schema.
#[derive(Debug)]
pub struct Status;

} // verus!
