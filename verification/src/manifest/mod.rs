//! The manifest of a stored file: its name, the hash of its password, and
//! for every block the nodes that hold it.

pub mod layout;
pub mod deserialization;
pub mod serialization;
pub mod parser;
pub mod creator;

use vstd::prelude::*;

verus! {

/// Why a manifest could not be written or read.
#[derive(Clone, Copy, Debug, PartialEq, Eq, Structural)]
pub enum ManifestError {
    /// The file name takes more than 65535 bytes of UTF-8.
    FilenameTooLarge,
    /// A block lists more than 255 nodes.
    TooManyNodes,
    /// A node address takes more than 65535 bytes of UTF-8.
    NodeAddressTooLarge,
    /// The data ended before a field was complete.
    UnexpectedEof,
    /// The file name is not valid UTF-8.
    InvalidFilename,
    /// A node address is not valid UTF-8.
    InvalidNodeAddress,
}

/// A node that holds a block: its address and its public key.
#[derive(Debug)]
pub struct NodeInfo {
    pub addr: String,
    pub public_key: [u8; 32],
}

/// One block of a file: its position, its identifier and the nodes that hold it.
#[derive(Debug)]
pub struct Block {
    pub block_idx: u32,
    pub block_id: [u8; 32],
    pub nodes: Vec<NodeInfo>,
}

/// A whole manifest, as kept in memory.
#[derive(Debug)]
pub struct Manifest {
    pub filename: String,
    pub password_hash: [u8; 32],
    pub blocks_length: u32,
    pub payload: Vec<Block>,
}

/// A node as a mathematical value.
pub struct NodeModel {
    pub addr: Seq<char>,
    pub public_key: Seq<u8>,
}

/// A block as a mathematical value.
pub struct BlockModel {
    pub block_idx: u32,
    pub block_id: Seq<u8>,
    pub nodes: Seq<NodeModel>,
}

/// A manifest as a mathematical value.
pub struct ManifestModel {
    pub filename: Seq<char>,
    pub password_hash: Seq<u8>,
    pub blocks_length: u32,
    pub payload: Seq<BlockModel>,
}

impl View for NodeInfo {
    type V = NodeModel;

    open spec fn view(&self) -> NodeModel {
        NodeModel { addr: self.addr@, public_key: self.public_key@ }
    }
}

/// The models of a sequence of nodes.
pub open spec fn nodes_view(nodes: Seq<NodeInfo>) -> Seq<NodeModel> {
    nodes.map_values(|n: NodeInfo| n@)
}

impl View for Block {
    type V = BlockModel;

    open spec fn view(&self) -> BlockModel {
        BlockModel { block_idx: self.block_idx, block_id: self.block_id@, nodes: nodes_view(self.nodes@) }
    }
}

/// The models of a sequence of blocks.
pub open spec fn blocks_view(blocks: Seq<Block>) -> Seq<BlockModel> {
    blocks.map_values(|b: Block| b@)
}

impl View for Manifest {
    type V = ManifestModel;

    open spec fn view(&self) -> ManifestModel {
        ManifestModel {
            filename: self.filename@,
            password_hash: self.password_hash@,
            blocks_length: self.blocks_length,
            payload: blocks_view(self.payload@),
        }
    }
}

} // verus!
