use vstd::prelude::*;

verus! {

/// Whether an integer fits a `isize`.
pub open spec fn fits_isize(v: int) -> bool {
    isize::MIN <= v <= isize::MAX
}

/// The position of a block in the world.
#[derive(PartialEq, Eq, Structural, Clone, Debug)]
pub struct BlockCoord {
    pub x: isize,
    pub y: isize,
    pub z: isize,
}

impl View for BlockCoord {
    type V = (int, int, int);

    open spec fn view(&self) -> (int, int, int) {
        (self.x as int, self.y as int, self.z as int)
    }
}

/// A position moved by an offset.
pub open spec fn translate(p: (int, int, int), dx: int, dy: int, dz: int) -> (int, int, int) {
    (p.0 + dx, p.1 + dy, p.2 + dz)
}

/// Whether moving a position by an offset stays in range.
pub open spec fn translate_fits(p: (int, int, int), dx: int, dy: int, dz: int) -> bool {
    &&& fits_isize(p.0 + dx)
    &&& fits_isize(p.1 + dy)
    &&& fits_isize(p.2 + dz)
}

impl BlockCoord {
    pub fn new(x: isize, y: isize, z: isize) -> (r: Self)
        ensures
            r.x == x && r.y == y && r.z == z,
    {
        Self { x, y, z }
    }

    pub fn set(&mut self, x: isize, y: isize, z: isize)
        ensures
            final(self).x == x && final(self).y == y && final(self).z == z,
    {
        self.x = x;
        self.y = y;
        self.z = z;
    }

    pub fn add(&self, x: isize, y: isize, z: isize) -> (r: Self)
        requires
            translate_fits(self@, x as int, y as int, z as int),
        ensures
            r@ == translate(self@, x as int, y as int, z as int),
    {
        Self { x: self.x + x, y: self.y + y, z: self.z + z }
    }

    pub fn sub(&self, x: isize, y: isize, z: isize) -> (r: Self)
        requires
            translate_fits(self@, -x, -y, -z),
        ensures
            r@ == translate(self@, -x, -y, -z),
    {
        Self { x: self.x - x, y: self.y - y, z: self.z - z }
    }

    pub fn up(&self, distance: isize) -> (r: Self)
        requires
            translate_fits(self@, 0, distance as int, 0),
        ensures
            r@ == translate(self@, 0, distance as int, 0),
    {
        Self { x: self.x, y: self.y + distance, z: self.z }
    }

    pub fn down(&self, distance: isize) -> (r: Self)
        requires
            translate_fits(self@, 0, -distance, 0),
        ensures
            r@ == translate(self@, 0, -distance, 0),
    {
        Self { x: self.x, y: self.y - distance, z: self.z }
    }

    pub fn left(&self, distance: isize) -> (r: Self)
        requires
            translate_fits(self@, -distance, 0, 0),
        ensures
            r@ == translate(self@, -distance, 0, 0),
    {
        Self { x: self.x - distance, y: self.y, z: self.z }
    }

    pub fn right(&self, distance: isize) -> (r: Self)
        requires
            translate_fits(self@, distance as int, 0, 0),
        ensures
            r@ == translate(self@, distance as int, 0, 0),
    {
        Self { x: self.x + distance, y: self.y, z: self.z }
    }

    pub fn forward(&self, distance: isize) -> (r: Self)
        requires
            translate_fits(self@, 0, 0, -distance),
        ensures
            r@ == translate(self@, 0, 0, -distance),
    {
        Self { x: self.x, y: self.y, z: self.z - distance }
    }

    pub fn backward(&self, distance: isize) -> (r: Self)
        requires
            translate_fits(self@, 0, 0, distance as int),
        ensures
            r@ == translate(self@, 0, 0, distance as int),
    {
        Self { x: self.x, y: self.y, z: self.z + distance }
    }
}

/// Moving by an offset and then back by the same offset returns to the start.
pub proof fn law_sub_undoes_add(p: (int, int, int), dx: int, dy: int, dz: int)
    ensures
        translate(translate(p, dx, dy, dz), -dx, -dy, -dz) == p,
{
}

} // verus!
