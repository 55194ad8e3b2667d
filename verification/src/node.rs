//! The decisions a node takes on a connection: whether to go on with a
//! client after the handshake, and what to answer to each packet.

use vstd::prelude::*;
use crate::packets::types::{Packet, PacketKind, PacketModel};

verus! {

/// The node's protocol version: major, minor, patch.
pub const VERSION: (u8, u8, u8) = (0, 1, 0);

/// Why a node drops a connection.
#[derive(Clone, Copy, Debug, PartialEq, Eq, Structural)]
pub enum ConnectionError {
    /// The client speaks another major version.
    VersionMismatch,
}

/// Goes on with a client whose version has the node's major version.
pub fn check_version(client_version: (u8, u8, u8)) -> (res: Result<(), ConnectionError>)
    ensures
        client_version.0 == VERSION.0 ==> res == Ok::<(), ConnectionError>(()),
        client_version.0 != VERSION.0 ==> res == Err::<(), ConnectionError>(ConnectionError::VersionMismatch),
{
    if client_version.0 == VERSION.0 {
        Ok(())
    } else {
        Err(ConnectionError::VersionMismatch)
    }
}

/// The answer to a packet: an empty `Pong` to a `Ping`, nothing to any
/// other kind.
pub fn respond(p: &Packet) -> (res: Option<Packet>)
    ensures
        p.kind == PacketKind::Ping ==> (res matches Some(r) && r@ == (PacketModel {
            kind: PacketKind::Pong,
            identity: Seq::new(32, |i: int| 0u8),
            payload: Seq::empty(),
        })),
        p.kind != PacketKind::Ping ==> res is None,
{
    match p.kind {
        PacketKind::Ping => Some(Packet::new_empty(PacketKind::Pong)),
        _ => None,
    }
}

} // verus!
