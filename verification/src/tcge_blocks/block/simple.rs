//! The simplest way to define a new type of block.
//! This kind of block has exactly one state.

use vstd::prelude::*;
use super::super::BlockId;
use super::super::BlockLayers;
use super::BlockState;
use super::Block;

verus! {

pub struct SimpleBlock {
    id: BlockId,
    name: String,
    layers: BlockLayers,
    default: BlockState,
}

impl SimpleBlock {
    /// Creates a block type whose only state carries the given id.
    pub fn new(id: BlockId, name: &str, layers: BlockLayers) -> (r: Self)
        ensures
            r.spec_id() == id,
            r.spec_name() == name@,
            r.spec_layers() == layers,
            r.spec_default_state() == (BlockState { id, data: () }),
    {
        let name = name.to_owned();
        let default = BlockState { id, data: () };
        Self { id, name, layers, default }
    }
}

impl super::Block for SimpleBlock {
    closed spec fn spec_id(&self) -> BlockId {
        self.id
    }

    closed spec fn spec_name(&self) -> Seq<char> {
        self.name@
    }

    closed spec fn spec_layers(&self) -> BlockLayers {
        self.layers
    }

    closed spec fn spec_default_state(&self) -> BlockState {
        self.default
    }

    fn get_id(&self) -> (r: BlockId) {
        self.id
    }

    fn get_name(&self) -> (r: &str) {
        self.name.as_str()
    }

    fn get_layers(&self) -> (r: BlockLayers) {
        self.layers
    }

    fn get_default_state(&self) -> (r: BlockState) {
        self.default
    }
}

} // verus!
