//! Everything directly related to blocks: their identity, faces, layers,
//! definitions and coordinates.

pub mod blocks;
pub use blocks::Blocks;
pub use blocks::BlocksRef;

pub mod id;
pub use id::BlockId;

pub mod face;
pub use face::Face;

pub mod block;
pub use block::Block;
pub use block::BlockState;

pub mod layers;
pub use layers::BlockLayers;

pub mod coords;
pub use coords::BlockDim;
pub use coords::BlockCoord;
