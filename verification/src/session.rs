//! The session driver's decisions: a phase-indexed session handle and the
//! handshake state machine.
//!
//! The session owns no transport here. The surrounding program performs the
//! reads and writes and hands each decoded handshake packet to
//! [`Session::advance`], which alone decides the phase transition; reads of
//! the wrong phase are impossible by construction, because only a
//! `Session<Status>` exists after a successful handshake.

use vstd::prelude::*;
use crate::handshake;
use crate::protocol::{Handshake, ProtocolState, Status};

verus! {

/// The handshake asked for a state this library does not speak (login).
#[derive(Debug, Clone, Copy, PartialEq, Eq, Structural)]
pub enum ProtocolError {
    LoginUnsupported,
}

impl ProtocolError {
    /// A short description of the error.
    pub fn message(&self) -> (r: String)
        ensures
            r@ == "login not supported"@,
    {
        ("login not supported").to_owned()
    }
}

/// A session in phase `P`, carrying what the handshake told us.
#[derive(Debug)]
pub struct Session<P> {
    pub version: i32,
    pub host: String,
    pub port: u16,
    pub phase: P,
}

impl Session<Handshake> {
    /// A fresh session that has not completed its handshake.
    pub fn create() -> (s: Session<Handshake>)
        ensures
            s.version == 0,
            s.host@ == Seq::<char>::empty(),
            s.port == 0,
    {
        Session { version: 0, host: String::new(), port: 0, phase: Handshake }
    }

    /// The handshake decision: a server list ping naming `Status` moves the
    /// session to the status phase with the ping's fields; any other
    /// requested state is refused and the session does not advance.
    pub fn advance(self, pkt: &handshake::Serverbound) -> (r: Result<
        Session<Status>,
        ProtocolError,
    >)
        ensures
            match r {
                Ok(s) => pkt@.next_state == ProtocolState::Status && s.version == pkt@.version
                    && s.host@ == pkt@.host && s.port == pkt@.port,
                Err(e) => pkt@.next_state != ProtocolState::Status && e
                    == ProtocolError::LoginUnsupported,
            },
    {
        match pkt {
            handshake::Serverbound::ServerListPing { version, host, port, next_state } => {
                match next_state {
                    ProtocolState::Status => Ok(
                        Session {
                            version: *version,
                            host: host.clone(),
                            port: *port,
                            phase: Status,
                        },
                    ),
                    ProtocolState::Handshake => Err(ProtocolError::LoginUnsupported),
                }
            },
        }
    }
}

} // verus!
