use vstd::prelude::*;

verus! {

pub type BlockDim = i32;

/// Whether an integer fits a `BlockDim`.
pub open spec fn dim_fits(v: int) -> bool {
    i32::MIN <= v <= i32::MAX
}

/// The position of a block in the world.
#[derive(PartialEq, Eq, Structural, Clone, Debug)]
pub struct BlockCoord {
    pub x: BlockDim,
    pub y: BlockDim,
    pub z: BlockDim,
}

impl View for BlockCoord {
    type V = (int, int, int);

    open spec fn view(&self) -> (int, int, int) {
        (self.x as int, self.y as int, self.z as int)
    }
}

/// A position moved by an offset.
pub open spec fn translate(p: (int, int, int), dx: int, dy: int, dz: int) -> (int, int, int) {
    (p.0 + dx, p.1 + dy, p.2 + dz)
}

/// Whether moving a position by an offset stays in range.
pub open spec fn translate_fits(p: (int, int, int), dx: int, dy: int, dz: int) -> bool {
    &&& dim_fits(p.0 + dx)
    &&& dim_fits(p.1 + dy)
    &&& dim_fits(p.2 + dz)
}

impl BlockCoord {
    pub fn new(x: BlockDim, y: BlockDim, z: BlockDim) -> (r: Self)
        ensures
            r.x == x && r.y == y && r.z == z,
    {
        Self { x, y, z }
    }

    pub fn set(&mut self, x: BlockDim, y: BlockDim, z: BlockDim)
        ensures
            final(self).x == x && final(self).y == y && final(self).z == z,
    {
        self.x = x;
        self.y = y;
        self.z = z;
    }

    pub fn add(&self, x: BlockDim, y: BlockDim, z: BlockDim) -> (r: Self)
        requires
            translate_fits(self@, x as int, y as int, z as int),
        ensures
            r@ == translate(self@, x as int, y as int, z as int),
    {
        Self { x: self.x + x, y: self.y + y, z: self.z + z }
    }

    pub fn sub(&self, x: BlockDim, y: BlockDim, z: BlockDim) -> (r: Self)
        requires
            translate_fits(self@, -x, -y, -z),
        ensures
            r@ == translate(self@, -x, -y, -z),
    {
        Self { x: self.x - x, y: self.y - y, z: self.z - z }
    }

    pub fn up(&self, distance: BlockDim) -> (r: Self)
        requires
            translate_fits(self@, 0, distance as int, 0),
        ensures
            r@ == translate(self@, 0, distance as int, 0),
    {
        Self { x: self.x, y: self.y + distance, z: self.z }
    }

    pub fn down(&self, distance: BlockDim) -> (r: Self)
        requires
            translate_fits(self@, 0, -distance, 0),
        ensures
            r@ == translate(self@, 0, -distance, 0),
    {
        Self { x: self.x, y: self.y - distance, z: self.z }
    }

    pub fn left(&self, distance: BlockDim) -> (r: Self)
        requires
            translate_fits(self@, -distance, 0, 0),
        ensures
            r@ == translate(self@, -distance, 0, 0),
    {
        Self { x: self.x - distance, y: self.y, z: self.z }
    }

    pub fn right(&self, distance: BlockDim) -> (r: Self)
        requires
            translate_fits(self@, distance as int, 0, 0),
        ensures
            r@ == translate(self@, distance as int, 0, 0),
    {
        Self { x: self.x + distance, y: self.y, z: self.z }
    }

    pub fn forward(&self, distance: BlockDim) -> (r: Self)
        requires
            translate_fits(self@, 0, 0, -distance),
        ensures
            r@ == translate(self@, 0, 0, -distance),
    {
        Self { x: self.x, y: self.y, z: self.z - distance }
    }

    pub fn backward(&self, distance: BlockDim) -> (r: Self)
        requires
            translate_fits(self@, 0, 0, distance as int),
        ensures
            r@ == translate(self@, 0, 0, distance as int),
    {
        Self { x: self.x, y: self.y, z: self.z + distance }
    }

    pub fn negate(&self) -> (r: Self)
        requires
            self.x != i32::MIN && self.y != i32::MIN && self.z != i32::MIN,
        ensures
            r@ == (-self@.0, -self@.1, -self@.2),
    {
        Self { x: -self.x, y: -self.y, z: -self.z }
    }
}

impl Default for BlockCoord {
    /// The origin.
    fn default() -> (r: Self)
        ensures
            r@ == (0int, 0int, 0int),
    {
        Self { x: 0, y: 0, z: 0 }
    }
}

impl From<(BlockDim, BlockDim, BlockDim)> for BlockCoord {
    fn from(other: (BlockDim, BlockDim, BlockDim)) -> (r: Self)
        ensures
            r.x == other.0 && r.y == other.1 && r.z == other.2,
    {
        Self::new(other.0, other.1, other.2)
    }
}

impl vstd::std_specs::convert::FromSpecImpl<(BlockDim, BlockDim, BlockDim)> for BlockCoord {
    open spec fn obeys_from_spec() -> bool {
        true
    }

    open spec fn from_spec(v: (BlockDim, BlockDim, BlockDim)) -> Self {
        BlockCoord { x: v.0, y: v.1, z: v.2 }
    }
}

impl From<BlockCoord> for (BlockDim, BlockDim, BlockDim) {
    fn from(other: BlockCoord) -> (r: Self)
        ensures
            r == (other.x, other.y, other.z),
    {
        (other.x, other.y, other.z)
    }
}

impl vstd::std_specs::convert::FromSpecImpl<BlockCoord> for (BlockDim, BlockDim, BlockDim) {
    open spec fn obeys_from_spec() -> bool {
        true
    }

    open spec fn from_spec(v: BlockCoord) -> Self {
        (v.x, v.y, v.z)
    }
}

/// Moving by an offset and then back by the same offset returns to the start.
pub proof fn law_sub_undoes_add(p: (int, int, int), dx: int, dy: int, dz: int)
    ensures
        translate(translate(p, dx, dy, dz), -dx, -dy, -dz) == p,
{
}

/// Each direction is the offset along one axis: up and backward grow `y` and `z`,
/// right grows `x`, and down, forward and left are their opposites.
pub proof fn law_directions_are_axis_offsets(p: (int, int, int), d: int)
    ensures
        translate(p, 0, d, 0) == translate(translate(p, 0, -d, 0), 0, 2 * d, 0),
        translate(translate(p, d, 0, 0), -d, 0, 0) == p,
        translate(translate(p, 0, 0, d), 0, 0, -d) == p,
{
}

/// Negating twice gives back the same position.
pub proof fn law_negate_involutive(p: (int, int, int))
    ensures
        (-(-p.0), -(-p.1), -(-p.2)) == p,
{
}

} // verus!
