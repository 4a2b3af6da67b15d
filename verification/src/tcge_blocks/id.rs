use vstd::prelude::*;

verus! {

/// Immutable handle to a specific type of block.
#[derive(PartialEq, Eq, Structural, Hash, Copy, Clone, Debug)]
pub struct BlockId {
    inner: u16,
}

impl View for BlockId {
    type V = u16;

    /// The raw 16-bit number behind the handle.
    closed spec fn view(&self) -> u16 {
        self.inner
    }
}

impl BlockId {
    /// Creates a handle; the number is truncated to 16 bits, as `as u16` does.
    pub fn new(id: usize) -> (r: BlockId)
        ensures
            r@ == id as u16,
    {
        BlockId { inner: id as u16 }
    }

    /// The raw number behind the handle.
    pub fn raw(&self) -> (r: u16)
        ensures
            r == self@,
    {
        self.inner
    }

    /// Two handles are the same exactly when their raw numbers are.
    pub proof fn lemma_view_injective(a: BlockId, b: BlockId)
        ensures
            a@ == b@ <==> a == b,
    {
    }
}

} // verus!
