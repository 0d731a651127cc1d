//! Data types of the relayer game of the Darwinia bridge, with their SCALE
//! encodings, and the Ethash merkle-proof record that the Ethereum relay
//! decodes from SCALE bytes.

pub mod double_node;
pub mod relayer_game;
pub mod scale;


pub use double_node::DoubleNodeWithMerkleProof;
pub use relayer_game::{Proposal, RefTcHeader, TcHeaderStatus};
