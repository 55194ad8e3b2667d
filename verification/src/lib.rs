//! Wire formats and protocol decisions of a small block-storage network:
//! the binary manifest that lists a file's blocks and the nodes that hold
//! them, the framing of packets exchanged between peers, and the challenge
//! handshake that authenticates a node to a client.

pub mod wire;
pub mod text;
pub mod manifest;
pub mod packets;
pub mod handshake;
pub mod node;
pub mod tls;
