//! Various types of storage for block-data.

use vstd::prelude::*;
use super::universe::BlockState;

verus! {

/// A storage for block states, addressed by location.
pub trait BlockStorage {
    /// How many locations the storage holds.
    spec fn capacity(&self) -> nat;

    fn get(&self, location: usize) -> BlockState
        requires
            location < self.capacity(),
    ;

    fn set(&mut self, location: usize, state: &BlockState)
        requires
            location < old(self).capacity(),
    ;
}

////////////////////////////////////////////////////////////////////////////////

pub struct SimpleBlockStorage {
    blocks: Vec<BlockState>,
}

impl SimpleBlockStorage {
    /// The stored states, in location order.
    pub closed spec fn spec_blocks(&self) -> Seq<BlockState> {
        self.blocks@
    }
}

impl BlockStorage for SimpleBlockStorage {
    open spec fn capacity(&self) -> nat {
        self.spec_blocks().len()
    }

    fn get(&self, location: usize) -> (r: BlockState)
        ensures
            r == self.spec_blocks()[location as int],
    {
        self.blocks[location]
    }

    fn set(&mut self, location: usize, state: &BlockState)
        ensures
            final(self).spec_blocks() == old(self).spec_blocks().update(location as int, *state),
    {
        self.blocks.set(location, *state);
    }
}

} // verus!
