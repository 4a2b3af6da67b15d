//! A voxel game-engine core: block coordinates and definitions, chunked block
//! storage, a lens router over a tree of nodes, and a backbone state machine.

pub mod fxmap;
pub mod text;
pub mod config;
pub mod tcge_blocks;
pub mod blocks;
pub mod util;
pub mod client;
pub mod router;
pub mod flat_router;
pub mod backbone;
pub mod path_laws;
