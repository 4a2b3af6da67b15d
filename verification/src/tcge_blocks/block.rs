//! Definition of types of block.

use vstd::prelude::*;
use super::BlockId;
use super::BlockLayers;

pub mod simple;

verus! {

/// A type of block.
pub trait Block {
    /// The id of the block type.
    spec fn spec_id(&self) -> BlockId;

    /// The name of the block type.
    spec fn spec_name(&self) -> Seq<char>;

    /// The layers the block type occupies.
    spec fn spec_layers(&self) -> BlockLayers;

    /// The state a block of this type starts in.
    spec fn spec_default_state(&self) -> BlockState;

    fn get_id(&self) -> (r: BlockId)
        ensures
            r == self.spec_id(),
    ;

    fn get_name(&self) -> (r: &str)
        ensures
            r@ == self.spec_name(),
    ;

    fn get_layers(&self) -> (r: BlockLayers)
        ensures
            r == self.spec_layers(),
    ;

    fn get_default_state(&self) -> (r: BlockState)
        ensures
            r == self.spec_default_state(),
    ;
}

/// A concrete state of a block; two states are equal when their ids are.
#[derive(Copy, Clone, Eq, Debug)]
pub struct BlockState {
    pub id: BlockId,
    pub data: (),
}

impl PartialEq for BlockState {
    fn eq(&self, other: &BlockState) -> (r: bool) {
        self.id == other.id
    }
}

impl vstd::std_specs::cmp::PartialEqSpecImpl for BlockState {
    open spec fn obeys_eq_spec() -> bool {
        true
    }

    open spec fn eq_spec(&self, other: &BlockState) -> bool {
        self.id == other.id
    }
}

} // verus!
