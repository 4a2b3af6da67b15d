use vstd::prelude::*;

verus! {

/// One of the six faces of a block, or all of them at once.
#[derive(Debug, Hash, PartialEq, Eq, Structural, Copy, Clone)]
pub enum Face {
    PositiveX,
    NegativeX,
    PositiveY,
    NegativeY,
    PositiveZ,
    NegativeZ,
    EveryDir,
}

/// The number of a face: 1 to 6 for the six directions, 7 for every direction.
pub open spec fn face_number(f: Face) -> u8 {
    match f {
        Face::PositiveX => 1,
        Face::NegativeX => 2,
        Face::PositiveY => 3,
        Face::NegativeY => 4,
        Face::PositiveZ => 5,
        Face::NegativeZ => 6,
        Face::EveryDir => 7,
    }
}

impl Face {
    /// The number of the face.
    pub fn id(&self) -> (r: u8)
        ensures
            r == face_number(*self),
    {
        match self {
            Face::PositiveX => 1,
            Face::NegativeX => 2,
            Face::PositiveY => 3,
            Face::NegativeY => 4,
            Face::PositiveZ => 5,
            Face::NegativeZ => 6,
            Face::EveryDir => 7,
        }
    }

    /// The number of the face, as an index.
    pub fn uid(&self) -> (r: usize)
        ensures
            r == face_number(*self) as usize,
    {
        self.id() as usize
    }
}

/// Distinct faces have distinct numbers, all of them between 1 and 7.
pub proof fn law_face_numbers_distinct(a: Face, b: Face)
    ensures
        1 <= face_number(a) <= 7,
        face_number(a) == face_number(b) <==> a == b,
{
}

} // verus!
