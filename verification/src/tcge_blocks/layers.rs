use vstd::prelude::*;

verus! {

/// The layers a block occupies.
#[derive(Copy, Clone, Debug)]
pub struct BlockLayers {
    solid: bool,
    fluid: bool,
    cover: bool,
}

impl View for BlockLayers {
    /// The flags `(solid, fluid, cover)`.
    type V = (bool, bool, bool);

    closed spec fn view(&self) -> (bool, bool, bool) {
        (self.solid, self.fluid, self.cover)
    }
}

impl Default for BlockLayers {
    /// A solid block that is neither fluid nor a cover.
    fn default() -> (r: Self)
        ensures
            r@ == (true, false, false),
    {
        Self { solid: true, fluid: false, cover: false }
    }
}

} // verus!
