//! Which faces of a block are hidden, for baking its geometry.

use vstd::prelude::*;

verus! {

/// For each face number (1 to 7, see `Face`), whether that face is hidden.
pub struct BakeryContext {
    pub occluded: [bool; 8],
}

impl BakeryContext {
    /// A context in which no face is hidden.
    pub fn new() -> (r: BakeryContext)
        ensures
            forall|i: int| 0 <= i < 8 ==> !#[trigger] r.occluded@[i],
    {
        BakeryContext { occluded: [false; 8] }
    }

    /// Records which faces are hidden; slot 0 is left as it was.
    pub fn set_occlusion(
        &mut self,
        x_pos: bool,
        y_pos: bool,
        z_pos: bool,
        x_neg: bool,
        y_neg: bool,
        z_neg: bool,
        omni: bool,
    )
        ensures
            final(self).occluded@ == seq![
                old(self).occluded@[0],
                x_pos,
                x_neg,
                y_pos,
                y_neg,
                z_pos,
                z_neg,
                omni,
            ],
    {
        self.occluded[1] = x_pos;
        self.occluded[2] = x_neg;
        self.occluded[3] = y_pos;
        self.occluded[4] = y_neg;
        self.occluded[5] = z_pos;
        self.occluded[6] = z_neg;
        self.occluded[7] = omni;
        assert(self.occluded@ =~= seq![
            old(self).occluded@[0],
            x_pos,
            x_neg,
            y_pos,
            y_neg,
            z_pos,
            z_neg,
            omni,
        ]);
    }
}

/// A face of a block, or all of them at once.
#[derive(Debug, Hash, PartialEq, Eq, Structural, Copy, Clone)]
pub enum Face {
    Xpos,
    Xneg,
    Ypos,
    Yneg,
    Zpos,
    Zneg,
    Omni,
}

/// The number of a face: its slot in a `BakeryContext`.
pub open spec fn face_slot(f: Face) -> u8 {
    match f {
        Face::Xpos => 1,
        Face::Xneg => 2,
        Face::Ypos => 3,
        Face::Yneg => 4,
        Face::Zpos => 5,
        Face::Zneg => 6,
        Face::Omni => 7,
    }
}

impl Face {
    /// The number of the face.
    pub fn id(&self) -> (r: u8)
        ensures
            r == face_slot(*self),
    {
        match self {
            Face::Xpos => 1,
            Face::Xneg => 2,
            Face::Ypos => 3,
            Face::Yneg => 4,
            Face::Zpos => 5,
            Face::Zneg => 6,
            Face::Omni => 7,
        }
    }
}

/// Whether a face is hidden in a context.
pub fn is_occluded(context: &BakeryContext, face: Face) -> (r: bool)
    ensures
        r == context.occluded@[face_slot(face) as int],
{
    context.occluded[face.id() as usize]
}

/// Whether a baked block hands out a side: it has the side, and the context does
/// not hide it.
pub open spec fn side_shown(context: &BakeryContext, has_side: &[bool; 8], face: Face) -> bool {
    has_side@[face_slot(face) as int] && !context.occluded@[face_slot(face) as int]
}

/// The side as a one-element sequence if it is handed out, else nothing.
pub open spec fn side_if(context: &BakeryContext, has_side: &[bool; 8], face: Face) -> Seq<Face> {
    if side_shown(context, has_side, face) { seq![face] } else { seq![] }
}

/// The sides a baked block hands out, in the order it hands them out: -x, -y, -z,
/// +x, +y, +z, then the side shared by every direction.
pub open spec fn built_sides(context: &BakeryContext, has_side: &[bool; 8]) -> Seq<Face> {
    side_if(context, has_side, Face::Xneg) + side_if(context, has_side, Face::Yneg) + side_if(context, has_side, Face::Zneg)
        + side_if(context, has_side, Face::Xpos) + side_if(context, has_side, Face::Ypos) + side_if(
        context,
        has_side,
        Face::Zpos,
    ) + side_if(context, has_side, Face::Omni)
}

/// Appends the side if the block has it and the context does not hide it.
fn transfer(context: &BakeryContext, has_side: &[bool; 8], face: Face, out: &mut Vec<Face>)
    ensures
        final(out)@ == old(out)@ + side_if(context, has_side, face),
{
    let ghost before = out@;
    let slot = face.id() as usize;
    if has_side[slot] && !context.occluded[slot] {
        out.push(face);
    }
    assert(out@ =~= before + side_if(context, has_side, face));
}

/// The sides of a baked block (the slots of `has_side` tell which it has) that
/// the context does not hide, in the order the block hands them out.
pub fn build(context: &BakeryContext, has_side: &[bool; 8]) -> (r: Vec<Face>)
    ensures
        r@ == built_sides(context, has_side),
{
    let mut out: Vec<Face> = Vec::new();
    transfer(context, has_side, Face::Xneg, &mut out);
    transfer(context, has_side, Face::Yneg, &mut out);
    transfer(context, has_side, Face::Zneg, &mut out);
    transfer(context, has_side, Face::Xpos, &mut out);
    transfer(context, has_side, Face::Ypos, &mut out);
    transfer(context, has_side, Face::Zpos, &mut out);
    transfer(context, has_side, Face::Omni, &mut out);
    assert(out@ =~= built_sides(context, has_side));
    out
}

} // verus!
