//! What the mesh of a chunk of block states shows; the geometry and the upload
//! of it are the renderer's.

use vstd::prelude::*;
use crate::blocks as blockdef;
use crate::blocks::BlockState;
use super::{Chunk, ChunkCoord, in_chunk, block_index, lemma_block_index, CHUNK_VOLUME};
use super::static_bakery::Face;
use crate::client::voxel::face_offset;

verus! {

/// A face of a block that the mesh shows: the block's place inside its chunk, the
/// side of it that faces air, and the block's state (which picks its texture).
#[derive(Copy, Clone, Debug)]
pub struct StateFace {
    pub x: isize,
    pub y: isize,
    pub z: isize,
    pub face: Face,
    pub state: BlockState,
}

/// Whether the neighbour across a face is air, counting what lies outside the
/// chunk as air. States are told apart by their ids.
pub open spec fn state_open_towards(blocks: Seq<BlockState>, air: BlockState, x: int, y: int, z: int, f: Face) -> bool {
    let a = x + face_offset(f).0;
    let b = y + face_offset(f).1;
    let c = z + face_offset(f).2;
    !(in_chunk(a) && in_chunk(b) && in_chunk(c)) || blocks[block_index(a, b, c)].id == air.id
}

/// The face, if the block shows it.
pub open spec fn state_face_if(blocks: Seq<BlockState>, air: BlockState, x: int, y: int, z: int, f: Face) -> Seq<StateFace> {
    if state_open_towards(blocks, air, x, y, z, f) {
        seq![StateFace { x: x as isize, y: y as isize, z: z as isize, face: f, state: blocks[block_index(x, y, z)] }]
    } else {
        seq![]
    }
}

/// The faces the block stored at index `i` shows: none for air, else those facing
/// air, in the order top, bottom, front, back, left, right.
pub open spec fn state_block_faces(blocks: Seq<BlockState>, air: BlockState, i: int) -> Seq<StateFace> {
    let x = i % 16;
    let z = (i / 16) % 16;
    let y = i / 256;
    if blocks[i].id == air.id {
        seq![]
    } else {
        state_face_if(blocks, air, x, y, z, Face::Ypos) + state_face_if(blocks, air, x, y, z, Face::Yneg)
            + state_face_if(blocks, air, x, y, z, Face::Zneg) + state_face_if(blocks, air, x, y, z, Face::Zpos)
            + state_face_if(blocks, air, x, y, z, Face::Xneg) + state_face_if(blocks, air, x, y, z, Face::Xpos)
    }
}

/// The faces shown by the blocks stored below index `n`, block after block.
pub open spec fn state_faces_before(blocks: Seq<BlockState>, air: BlockState, n: int) -> Seq<StateFace>
    decreases n,
{
    if n <= 0 {
        seq![]
    } else {
        state_faces_before(blocks, air, n - 1) + state_block_faces(blocks, air, n - 1)
    }
}

/// The place inside a chunk that storage index `j` stands for.
proof fn lemma_index_coords(j: u32)
    requires
        j < 4096,
    ensures
        block_index((j % 16) as int, (j / 256) as int, ((j / 16) % 16) as int) == j,
        j % 16 < 16 && j / 256 < 16 && (j / 16) % 16 < 16,
{
    assert((j / 256) * 256 + ((j / 16) % 16) * 16 + j % 16 == j) by (bit_vector)
        requires j < 4096;
    assert(j / 256 < 16) by (bit_vector)
        requires j < 4096;
}

/// Which faces the blocks stored below index `n` show.
proof fn lemma_state_faces_before(blocks: Seq<BlockState>, air: BlockState, n: int, x: int, y: int, z: int, f: Face)
    requires
        0 <= n <= 4096,
        blocks.len() == 4096,
        in_chunk(x) && in_chunk(y) && in_chunk(z),
    ensures
        state_faces_before(blocks, air, n).contains(
            StateFace { x: x as isize, y: y as isize, z: z as isize, face: f, state: blocks[block_index(x, y, z)] },
        ) <==> (block_index(x, y, z) < n && blocks[block_index(x, y, z)].id != air.id && f != Face::Omni
            && state_open_towards(blocks, air, x, y, z, f)),
    decreases n,
{
    broadcast use vstd::seq_lib::group_seq_properties;
    let sf = StateFace { x: x as isize, y: y as isize, z: z as isize, face: f, state: blocks[block_index(x, y, z)] };
    if n > 0 {
        lemma_state_faces_before(blocks, air, n - 1, x, y, z, f);
        let j = n - 1;
        lemma_index_coords(j as u32);
        let (a, c, b) = (j % 16, (j / 16) % 16, j / 256);
        lemma_block_index(x, y, z, a, b, c);
        let faces = state_block_faces(blocks, air, j);
        if blocks[j].id != air.id {
            assert(faces =~= state_face_if(blocks, air, a, b, c, Face::Ypos) + state_face_if(blocks, air, a, b, c, Face::Yneg)
                + state_face_if(blocks, air, a, b, c, Face::Zneg) + state_face_if(blocks, air, a, b, c, Face::Zpos)
                + state_face_if(blocks, air, a, b, c, Face::Xneg) + state_face_if(blocks, air, a, b, c, Face::Xpos));
        }
        assert(faces.contains(sf) <==> (j == block_index(x, y, z) && blocks[j].id != air.id && f != Face::Omni
            && state_open_towards(blocks, air, x, y, z, f)));
    }
}

/// The mesh of a chunk of block states shows exactly the faces of blocks other
/// than air that face air (or the outside of the chunk), each once per block and
/// side, carrying the block's state.
pub proof fn law_state_mesh_faces(c: &Chunk, air: BlockState, x: int, y: int, z: int, f: Face)
    requires
        c.spec_blocks().len() == CHUNK_VOLUME,
        in_chunk(x) && in_chunk(y) && in_chunk(z),
    ensures
        state_faces_before(c.spec_blocks(), air, CHUNK_VOLUME as int).contains(
            StateFace {
                x: x as isize,
                y: y as isize,
                z: z as isize,
                face: f,
                state: c.spec_blocks()[block_index(x, y, z)],
            },
        ) <==> (c.spec_blocks()[block_index(x, y, z)].id != air.id && f != Face::Omni && state_open_towards(
            c.spec_blocks(),
            air,
            x,
            y,
            z,
            f,
        )),
{
    lemma_block_index(x, y, z, x, y, z);
    lemma_state_faces_before(c.spec_blocks(), air, CHUNK_VOLUME as int, x, y, z, f);
}

impl Chunk {
    /// Appends the face of the block at `(x, y, z)` if its neighbour at
    /// `(nx, ny, nz)` is air or outside the chunk.
    fn push_state_face(&self, out: &mut Vec<StateFace>, air: BlockState, state: BlockState, x: isize, y: isize, z: isize, face: Face, nx: isize, ny: isize, nz: isize)
        requires
            self.spec_blocks().len() == CHUNK_VOLUME,
            in_chunk(x as int) && in_chunk(y as int) && in_chunk(z as int),
            state == self.spec_blocks()[block_index(x as int, y as int, z as int)],
            nx == x + face_offset(face).0,
            ny == y + face_offset(face).1,
            nz == z + face_offset(face).2,
        ensures
            final(out)@ == old(out)@ + state_face_if(self.spec_blocks(), air, x as int, y as int, z as int, face),
    {
        let ghost before = out@;
        let neighbour = match self.get_block(nx, ny, nz) {
            Some(s) => s,
            None => air,
        };
        if neighbour == air {
            out.push(StateFace { x, y, z, face, state });
        }
        assert(out@ =~= before + state_face_if(self.spec_blocks(), air, x as int, y as int, z as int, face));
    }

    /// The faces of the chunk's blocks that face `air`: for every block that is not
    /// air, in storage order, the sides whose neighbour is air or outside the chunk.
    #[verifier::rlimit(40)]
    pub fn faces_against(&self, air: BlockState) -> (r: Vec<StateFace>)
        requires
            self.spec_blocks().len() == CHUNK_VOLUME,
        ensures
            r@ == state_faces_before(self.spec_blocks(), air, CHUNK_VOLUME as int),
    {
        let mut out: Vec<StateFace> = Vec::new();
        let mut i: usize = 0;
        while i < CHUNK_VOLUME
            invariant
                i <= CHUNK_VOLUME,
                self.spec_blocks().len() == CHUNK_VOLUME,
                out@ == state_faces_before(self.spec_blocks(), air, i as int),
            decreases CHUNK_VOLUME - i,
        {
            let x = (i % 16) as isize;
            let z = ((i / 16) % 16) as isize;
            let y = (i / 256) as isize;
            proof {
                lemma_index_coords(i as u32);
            }
            let ghost before = out@;
            let block = match self.get_block(x, y, z) {
                Some(s) => s,
                None => air,
            };
            if !(block == air) {
                self.push_state_face(&mut out, air, block, x, y, z, Face::Ypos, x, y + 1, z);
                self.push_state_face(&mut out, air, block, x, y, z, Face::Yneg, x, y - 1, z);
                self.push_state_face(&mut out, air, block, x, y, z, Face::Zneg, x, y, z - 1);
                self.push_state_face(&mut out, air, block, x, y, z, Face::Zpos, x, y, z + 1);
                self.push_state_face(&mut out, air, block, x, y, z, Face::Xneg, x - 1, y, z);
                self.push_state_face(&mut out, air, block, x, y, z, Face::Xpos, x + 1, y, z);
            }
            assert(out@ =~= before + state_block_faces(self.spec_blocks(), air, i as int));
            i = i + 1;
        }
        out
    }
}

/// Which way, by whole chunks, a place `a` along one axis lies from the chunk
/// whose places run from 0 to 15.
pub open spec fn chunk_step(a: int) -> int {
    if a < 0 {
        -1
    } else if a >= 16 {
        1
    } else {
        0
    }
}

/// Whether chunk `ch` sits `(dx, dy, dz)` chunks away from `home`.
pub open spec fn sits_at(ch: &Chunk, home: ChunkCoord, dx: int, dy: int, dz: int) -> bool {
    ch.pos.x == home.x + dx && ch.pos.y == home.y + dy && ch.pos.z == home.z + dz
}

/// The first of the chunks `ns`, from index `i` on, that sits `(dx, dy, dz)`
/// chunks away from `home`.
pub open spec fn neighbour_from(ns: Seq<Option<&Chunk>>, home: ChunkCoord, dx: int, dy: int, dz: int, i: int) -> Option<
    &Chunk,
>
    decreases ns.len() - i,
{
    if i < 0 || i >= ns.len() {
        None
    } else if ns[i] matches Some(ch) && sits_at(ch, home, dx, dy, dz) {
        ns[i]
    } else {
        neighbour_from(ns, home, dx, dy, dz, i + 1)
    }
}

/// Whether chunks are whole: each holds a full set of block states.
pub open spec fn chunks_whole(ns: Seq<Option<&Chunk>>) -> bool {
    forall|i: int| 0 <= i < ns.len() ==> (#[trigger] ns[i] matches Some(ch) ==> ch.spec_blocks().len() == CHUNK_VOLUME)
}

/// Whether the neighbour across a face of the block at `(x, y, z)` of chunk `c` is
/// air. A neighbour outside the chunk is looked up in the first of the chunks `ns`
/// that sits where it lies; where none does, it counts as air. States are told
/// apart by their ids.
pub open spec fn open_towards_in(c: &Chunk, ns: Seq<Option<&Chunk>>, air: BlockState, x: int, y: int, z: int, f: Face) -> bool {
    let a = x + face_offset(f).0;
    let b = y + face_offset(f).1;
    let d = z + face_offset(f).2;
    if in_chunk(a) && in_chunk(b) && in_chunk(d) {
        c.spec_blocks()[block_index(a, b, d)].id == air.id
    } else {
        match neighbour_from(ns, c.pos, chunk_step(a), chunk_step(b), chunk_step(d), 0) {
            Some(n) => n.spec_blocks()[block_index(a - 16 * chunk_step(a), b - 16 * chunk_step(b), d - 16 * chunk_step(d))].id
                == air.id,
            None => true,
        }
    }
}

/// The face, if the block shows it among its neighbours.
pub open spec fn face_if_in(c: &Chunk, ns: Seq<Option<&Chunk>>, air: BlockState, x: int, y: int, z: int, f: Face) -> Seq<StateFace> {
    if open_towards_in(c, ns, air, x, y, z, f) {
        seq![StateFace { x: x as isize, y: y as isize, z: z as isize, face: f, state: c.spec_blocks()[block_index(x, y, z)] }]
    } else {
        seq![]
    }
}

/// The faces the block stored at index `i` shows among its neighbours: none for
/// air, else those facing air, in the order top, bottom, front, back, left, right.
pub open spec fn block_faces_in(c: &Chunk, ns: Seq<Option<&Chunk>>, air: BlockState, i: int) -> Seq<StateFace> {
    let x = i % 16;
    let z = (i / 16) % 16;
    let y = i / 256;
    if c.spec_blocks()[i].id == air.id {
        seq![]
    } else {
        face_if_in(c, ns, air, x, y, z, Face::Ypos) + face_if_in(c, ns, air, x, y, z, Face::Yneg) + face_if_in(
            c,
            ns,
            air,
            x,
            y,
            z,
            Face::Zneg,
        ) + face_if_in(c, ns, air, x, y, z, Face::Zpos) + face_if_in(c, ns, air, x, y, z, Face::Xneg) + face_if_in(
            c,
            ns,
            air,
            x,
            y,
            z,
            Face::Xpos,
        )
    }
}

/// The faces shown among their neighbours by the blocks stored below index `n`.
pub open spec fn faces_before_in(c: &Chunk, ns: Seq<Option<&Chunk>>, air: BlockState, n: int) -> Seq<StateFace>
    decreases n,
{
    if n <= 0 {
        seq![]
    } else {
        faces_before_in(c, ns, air, n - 1) + block_faces_in(c, ns, air, n - 1)
    }
}

/// The state at the place `(lx, ly, lz)` of the first of the chunks that sits
/// `(dx, dy, dz)` chunks away from `home`, if one does.
fn neighbour_block(
    home: &ChunkCoord,
    neighbours: &[Option<&Chunk>; 27],
    dx: isize,
    dy: isize,
    dz: isize,
    lx: isize,
    ly: isize,
    lz: isize,
) -> (r: Option<BlockState>)
    requires
        -1 <= dx <= 1 && -1 <= dy <= 1 && -1 <= dz <= 1,
        in_chunk(lx as int) && in_chunk(ly as int) && in_chunk(lz as int),
        chunks_whole(neighbours@),
    ensures
        r == match neighbour_from(neighbours@, *home, dx as int, dy as int, dz as int, 0) {
            Some(n) => Some(n.spec_blocks()[block_index(lx as int, ly as int, lz as int)]),
            None => None::<BlockState>,
        },
{
    let mut i: usize = 0;
    while i < 27
        invariant
            i <= 27,
            neighbours@.len() == 27,
            chunks_whole(neighbours@),
            -1 <= dx <= 1 && -1 <= dy <= 1 && -1 <= dz <= 1,
            in_chunk(lx as int) && in_chunk(ly as int) && in_chunk(lz as int),
            neighbour_from(neighbours@, *home, dx as int, dy as int, dz as int, 0) == neighbour_from(
                neighbours@,
                *home,
                dx as int,
                dy as int,
                dz as int,
                i as int,
            ),
        decreases 27 - i,
    {
        match neighbours[i] {
            Some(ch) => {
                let fits_x = (dx == 0 && ch.pos.x == home.x) || (dx == -1 && home.x > isize::MIN && ch.pos.x == home.x - 1)
                    || (dx == 1 && home.x < isize::MAX && ch.pos.x == home.x + 1);
                let fits_y = (dy == 0 && ch.pos.y == home.y) || (dy == -1 && home.y > isize::MIN && ch.pos.y == home.y - 1)
                    || (dy == 1 && home.y < isize::MAX && ch.pos.y == home.y + 1);
                let fits_z = (dz == 0 && ch.pos.z == home.z) || (dz == -1 && home.z > isize::MIN && ch.pos.z == home.z - 1)
                    || (dz == 1 && home.z < isize::MAX && ch.pos.z == home.z + 1);
                if fits_x && fits_y && fits_z {
                    assert(neighbours@[i as int] == Some(ch));
                    return ch.get_block(lx, ly, lz);
                }
            },
            None => {},
        }
        i = i + 1;
    }
    None
}

impl Chunk {
    /// Where a place next to the chunk's own lies: the step by whole chunks and
    /// the place inside the chunk there.
    fn split_place(a: isize) -> (r: (isize, isize))
        requires
            -1 <= a <= 16,
        ensures
            r.0 == chunk_step(a as int),
            r.1 == a - 16 * chunk_step(a as int),
    {
        if a < 0 {
            (-1, a + 16)
        } else if a >= 16 {
            (1, a - 16)
        } else {
            (0, a)
        }
    }

    /// Appends the face of the block at `(x, y, z)` if its neighbour at
    /// `(nx, ny, nz)`, looked up among `neighbours` where it lies outside the
    /// chunk, is air.
    fn push_face_in(
        &self,
        out: &mut Vec<StateFace>,
        neighbours: &[Option<&Chunk>; 27],
        air: BlockState,
        state: BlockState,
        x: isize,
        y: isize,
        z: isize,
        face: Face,
        nx: isize,
        ny: isize,
        nz: isize,
    )
        requires
            self.spec_blocks().len() == CHUNK_VOLUME,
            chunks_whole(neighbours@),
            in_chunk(x as int) && in_chunk(y as int) && in_chunk(z as int),
            state == self.spec_blocks()[block_index(x as int, y as int, z as int)],
            nx == x + face_offset(face).0,
            ny == y + face_offset(face).1,
            nz == z + face_offset(face).2,
        ensures
            final(out)@ == old(out)@ + face_if_in(self, neighbours@, air, x as int, y as int, z as int, face),
    {
        let ghost before = out@;
        let found = if 0 <= nx && nx < 16 && 0 <= ny && ny < 16 && 0 <= nz && nz < 16 {
            self.get_block(nx, ny, nz)
        } else {
            let (dx, lx) = Chunk::split_place(nx);
            let (dy, ly) = Chunk::split_place(ny);
            let (dz, lz) = Chunk::split_place(nz);
            neighbour_block(&self.pos, neighbours, dx, dy, dz, lx, ly, lz)
        };
        let neighbour = match found {
            Some(s) => s,
            None => air,
        };
        if neighbour == air {
            out.push(StateFace { x, y, z, face, state });
        }
        assert(out@ =~= before + face_if_in(self, neighbours@, air, x as int, y as int, z as int, face));
    }

    /// The faces of the chunk's blocks that face `air`, looking across the chunk's
    /// sides into the neighbouring chunks given: for every block that is not air,
    /// in storage order, the sides whose neighbour is air, where a neighbour
    /// outside the chunk is taken from the first given chunk that sits where it
    /// lies and counts as air where none does.
    #[verifier::rlimit(40)]
    pub fn faces_against_neighbours(&self, neighbours: &[Option<&Chunk>; 27], air: BlockState) -> (r: Vec<StateFace>)
        requires
            self.spec_blocks().len() == CHUNK_VOLUME,
            chunks_whole(neighbours@),
        ensures
            r@ == faces_before_in(self, neighbours@, air, CHUNK_VOLUME as int),
    {
        let mut out: Vec<StateFace> = Vec::new();
        let mut i: usize = 0;
        while i < CHUNK_VOLUME
            invariant
                i <= CHUNK_VOLUME,
                self.spec_blocks().len() == CHUNK_VOLUME,
                chunks_whole(neighbours@),
                out@ == faces_before_in(self, neighbours@, air, i as int),
            decreases CHUNK_VOLUME - i,
        {
            let x = (i % 16) as isize;
            let z = ((i / 16) % 16) as isize;
            let y = (i / 256) as isize;
            proof {
                lemma_index_coords(i as u32);
            }
            let ghost before = out@;
            let block = match self.get_block(x, y, z) {
                Some(s) => s,
                None => air,
            };
            if !(block == air) {
                self.push_face_in(&mut out, neighbours, air, block, x, y, z, Face::Ypos, x, y + 1, z);
                self.push_face_in(&mut out, neighbours, air, block, x, y, z, Face::Yneg, x, y - 1, z);
                self.push_face_in(&mut out, neighbours, air, block, x, y, z, Face::Zneg, x, y, z - 1);
                self.push_face_in(&mut out, neighbours, air, block, x, y, z, Face::Zpos, x, y, z + 1);
                self.push_face_in(&mut out, neighbours, air, block, x, y, z, Face::Xneg, x - 1, y, z);
                self.push_face_in(&mut out, neighbours, air, block, x, y, z, Face::Xpos, x + 1, y, z);
            }
            assert(out@ =~= before + block_faces_in(self, neighbours@, air, i as int));
            i = i + 1;
        }
        out
    }
}

/// Builds the meshes of chunks against the universe's air.
pub struct ChunkMesher {
    pub blockdef: blockdef::UniverseRef,
}

impl ChunkMesher {
    pub fn new(blockdef: blockdef::UniverseRef) -> (r: ChunkMesher)
        ensures
            r.blockdef == blockdef,
    {
        ChunkMesher { blockdef }
    }

    /// The faces the chunk's mesh shows, against the default state of a block the
    /// universe names "air" (the universe must have one).
    pub fn mesh(&mut self, chunk: &Chunk) -> (r: Vec<StateFace>)
        requires
            old(self).blockdef.has_block_named("air"@),
            chunk.spec_blocks().len() == CHUNK_VOLUME,
        ensures
            final(self).blockdef == old(self).blockdef,
            exists|air: BlockState| #[trigger] super::is_named_default(*old(self).blockdef, "air"@, air)
                && r@ == state_faces_before(chunk.spec_blocks(), air, CHUNK_VOLUME as int),
    {
        let block = self.blockdef.get_block_by_name_unchecked("air");
        let air = block.get_default_state();
        proof {
            let k = choose|k: usize| #[trigger] self.blockdef.spec_blocks().contains_key(k)
                && self.blockdef.spec_blocks()[k] == *block && block.spec_name() == "air"@;
            assert(super::is_named_default(*self.blockdef, "air"@, air));
        }
        let r = chunk.faces_against(air);
        r
    }
}

} // verus!
