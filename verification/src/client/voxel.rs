//! The plain voxel world: chunks of one-byte blocks, where 0 is air.

use vstd::prelude::*;
use crate::client::blocks::{
    in_chunk,
    block_index,
    chunk_part,
    local_part,
    lemma_chunk_split,
    lemma_block_index,
    on_faces,
    on_edge,
    generated_position,
    lemma_generated_position,
    CHUNK_SIZE,
    CHUNK_SLICE,
    CHUNK_SIZE_MASK,
    CHUNK_VOLUME,
};
use crate::util::clock_nanos;
use crate::config::{get_integer, table_integer};
use crate::client::blocks::static_bakery::Face;

verus! {

/// A block is a single byte.
pub type Block = u8;

pub const BLOCK_AIR: Block = 0;

pub const BLOCK_ADM: Block = 1;

#[derive(PartialEq, Eq, Structural, Copy, Clone, Hash, Debug)]
pub struct BlockCoord {
    pub x: isize,
    pub y: isize,
    pub z: isize,
}

impl BlockCoord {
    pub fn new(x: isize, y: isize, z: isize) -> (r: BlockCoord)
        ensures
            r == (BlockCoord { x, y, z }),
    {
        BlockCoord { x, y, z }
    }
}

#[derive(PartialEq, Eq, Structural, Copy, Clone, Hash, Debug)]
pub struct ChunkCoord {
    pub x: isize,
    pub y: isize,
    pub z: isize,
}

impl ChunkCoord {
    pub fn new_from_chunk(x: isize, y: isize, z: isize) -> (r: ChunkCoord)
        ensures
            r == (ChunkCoord { x, y, z }),
    {
        ChunkCoord { x, y, z }
    }

    /// The chunk that holds the given block.
    pub fn new_from_block(pos: &BlockCoord) -> (r: ChunkCoord)
        ensures
            r == chunk_of(*pos),
    {
        ChunkCoord { x: pos.x >> 4, y: pos.y >> 4, z: pos.z >> 4 }
    }
}

/// A cube of 16 x 16 x 16 blocks.
pub struct Chunk {
    pub pos: ChunkCoord,
    pub blocks: [Block; CHUNK_VOLUME],
    pub last_update: u128,
}

impl Chunk {
    /// The blocks, in storage order.
    pub open spec fn spec_blocks(&self) -> Seq<Block> {
        self.blocks@
    }

    /// A chunk at the given position whose twelve edges are solid and whose
    /// inside is air.
    pub fn new(x: isize, y: isize, z: isize) -> (r: Chunk)
        ensures
            r.pos == (ChunkCoord { x, y, z }),
            r.spec_blocks().len() == CHUNK_VOLUME,
            forall|a: int, b: int, c: int|
                in_chunk(a) && in_chunk(b) && in_chunk(c) ==> #[trigger] r.spec_blocks()[block_index(a, b, c)]
                    == if on_edge(a, b, c) { BLOCK_ADM } else { BLOCK_AIR },
    {
        let mut new = Chunk {
            pos: ChunkCoord { x, y, z },
            blocks: [BLOCK_AIR; CHUNK_VOLUME],
            last_update: clock_nanos(),
        };
        assert(forall|i: int| 0 <= i < CHUNK_VOLUME ==> new.spec_blocks()[i] == BLOCK_AIR);
        proof {
            assert forall|a: int, b: int, c: int| in_chunk(a) && in_chunk(b) && in_chunk(c) implies new.spec_blocks()[block_index(a, b, c)] == BLOCK_AIR by {
                lemma_block_index(a, b, c, a, b, c);
            }
        }
        new.fill_with_grid(BLOCK_ADM);
        new
    }

    /// The position inside a chunk, if the value is one.
    pub fn clamp_chunk_coord(value: isize) -> (r: Option<usize>)
        ensures
            match r {
                Some(v) => in_chunk(value as int) && v == value,
                None => !in_chunk(value as int),
            },
    {
        if value < 0 {
            return None;
        }
        if value >= CHUNK_SIZE as isize {
            return None;
        }
        return Some(value as usize);
    }

    /// The block at `(x, y, z)`, if that lies inside the chunk.
    pub fn get_block(&self, x: isize, y: isize, z: isize) -> (r: Option<Block>)
        ensures
            match r {
                Some(s) => in_chunk(x as int) && in_chunk(y as int) && in_chunk(z as int)
                    && s == self.spec_blocks()[block_index(x as int, y as int, z as int)],
                None => !(in_chunk(x as int) && in_chunk(y as int) && in_chunk(z as int)),
            },
    {
        let x = match Chunk::clamp_chunk_coord(x) { Some(v) => v, None => return None };
        let y = match Chunk::clamp_chunk_coord(y) { Some(v) => v, None => return None };
        let z = match Chunk::clamp_chunk_coord(z) { Some(v) => v, None => return None };
        let index = y * CHUNK_SLICE + z * CHUNK_SIZE + x;
        Some(self.blocks[index])
    }

    /// Puts `state` at `(x, y, z)` if that lies inside the chunk, and then marks the
    /// chunk as updated. Returns whether it did.
    pub fn set_block(&mut self, x: isize, y: isize, z: isize, state: Block) -> (r: Option<()>)
        ensures
            final(self).pos == old(self).pos,
            ({
                let inside = in_chunk(x as int) && in_chunk(y as int) && in_chunk(z as int);
                if inside {
                    &&& r is Some
                    &&& final(self).spec_blocks() == old(self).spec_blocks().update(
                        block_index(x as int, y as int, z as int),
                        state,
                    )
                } else {
                    &&& r is None
                    &&& *final(self) == *old(self)
                }
            }),
    {
        let x = match Chunk::clamp_chunk_coord(x) { Some(v) => v, None => return None };
        let y = match Chunk::clamp_chunk_coord(y) { Some(v) => v, None => return None };
        let z = match Chunk::clamp_chunk_coord(z) { Some(v) => v, None => return None };
        let index = y * CHUNK_SLICE + z * CHUNK_SIZE + x;
        self.blocks[index] = state;
        self.last_update = clock_nanos();
        Some(())
    }

    /// Puts `fill` at `(x, y, z)` inside the chunk.
    fn put(&mut self, x: isize, y: isize, z: isize, fill: Block)
        requires
            in_chunk(x as int) && in_chunk(y as int) && in_chunk(z as int),
        ensures
            final(self).pos == old(self).pos,
            forall|a: int, b: int, c: int|
                in_chunk(a) && in_chunk(b) && in_chunk(c) ==> #[trigger] final(self).spec_blocks()[block_index(a, b, c)]
                    == if a == x && b == y && c == z { fill } else { old(self).spec_blocks()[block_index(a, b, c)] },
    {
        let ghost before = self.spec_blocks();
        self.set_block(x, y, z, fill);
        assert forall|a: int, b: int, c: int|
            in_chunk(a) && in_chunk(b) && in_chunk(c) implies #[trigger] self.spec_blocks()[block_index(a, b, c)]
                == if a == x && b == y && c == z { fill } else { before[block_index(a, b, c)] } by {
            lemma_block_index(a, b, c, x as int, y as int, z as int);
        }
    }

    /// Fills the twelve edges of the chunk with `fill`; the rest stays as it was.
    #[verifier::rlimit(40)]
    pub fn fill_with_grid(&mut self, fill: Block)
        ensures
            final(self).pos == old(self).pos,
            forall|x: int, y: int, z: int|
                in_chunk(x) && in_chunk(y) && in_chunk(z) ==> #[trigger] final(self).spec_blocks()[block_index(x, y, z)]
                    == if on_edge(x, y, z) { fill } else { old(self).spec_blocks()[block_index(x, y, z)] },
    {
        let ghost start = self.spec_blocks();
        let e: isize = 15;
        for i in 0..16isize
            invariant
                e == 15,
                self.pos == old(self).pos,
                start == old(self).spec_blocks(),
                forall|a: int, b: int, c: int|
                    in_chunk(a) && in_chunk(b) && in_chunk(c) ==> #[trigger] self.spec_blocks()[block_index(a, b, c)]
                        == if (a < i && on_faces(b, c)) || (b < i && on_faces(a, c)) || (c < i && on_faces(a, b)) {
                            fill
                        } else {
                            start[block_index(a, b, c)]
                        },
        {
            self.put(i, 0, 0, fill);
            self.put(i, e, 0, fill);
            self.put(i, 0, e, fill);
            self.put(i, e, e, fill);
            self.put(0, i, 0, fill);
            self.put(e, i, 0, fill);
            self.put(0, i, e, fill);
            self.put(e, i, e, fill);
            self.put(0, 0, i, fill);
            self.put(e, 0, i, fill);
            self.put(0, e, i, fill);
            self.put(e, e, i, fill);
        }
    }
}

////////////////////////////////////////////////////////////////////////////////

/// A face of a block that the chunk's mesh shows: the block's place inside the
/// chunk and the side of it that faces air.
#[derive(PartialEq, Eq, Structural, Copy, Clone, Debug)]
pub struct MeshFace {
    pub x: isize,
    pub y: isize,
    pub z: isize,
    pub face: Face,
}

/// The step from a block to its neighbour across a face.
pub open spec fn face_offset(f: Face) -> (int, int, int) {
    match f {
        Face::Xpos => (1, 0, 0),
        Face::Xneg => (-1, 0, 0),
        Face::Ypos => (0, 1, 0),
        Face::Yneg => (0, -1, 0),
        Face::Zpos => (0, 0, 1),
        Face::Zneg => (0, 0, -1),
        Face::Omni => (0, 0, 0),
    }
}

/// Whether the neighbour across a face is air, counting what lies outside the
/// chunk as air.
pub open spec fn open_towards(blocks: Seq<Block>, x: int, y: int, z: int, f: Face) -> bool {
    let a = x + face_offset(f).0;
    let b = y + face_offset(f).1;
    let c = z + face_offset(f).2;
    !(in_chunk(a) && in_chunk(b) && in_chunk(c)) || blocks[block_index(a, b, c)] == BLOCK_AIR
}

/// The face, if the block shows it.
pub open spec fn face_if(blocks: Seq<Block>, x: int, y: int, z: int, f: Face) -> Seq<MeshFace> {
    if open_towards(blocks, x, y, z, f) {
        seq![MeshFace { x: x as isize, y: y as isize, z: z as isize, face: f }]
    } else {
        seq![]
    }
}

/// The faces the block stored at index `i` shows: none for air, else those facing
/// air, in the order top, bottom, front, back, left, right.
pub open spec fn block_faces(blocks: Seq<Block>, i: int) -> Seq<MeshFace> {
    let x = i % 16;
    let z = (i / 16) % 16;
    let y = i / 256;
    if blocks[i] == BLOCK_AIR {
        seq![]
    } else {
        face_if(blocks, x, y, z, Face::Ypos) + face_if(blocks, x, y, z, Face::Yneg) + face_if(
            blocks,
            x,
            y,
            z,
            Face::Zneg,
        ) + face_if(blocks, x, y, z, Face::Zpos) + face_if(blocks, x, y, z, Face::Xneg) + face_if(
            blocks,
            x,
            y,
            z,
            Face::Xpos,
        )
    }
}

/// The faces shown by the blocks stored below index `n`, block after block.
pub open spec fn faces_before(blocks: Seq<Block>, n: int) -> Seq<MeshFace>
    decreases n,
{
    if n <= 0 {
        seq![]
    } else {
        faces_before(blocks, n - 1) + block_faces(blocks, n - 1)
    }
}

impl Chunk {
    /// Appends the face of the block at `(x, y, z)` if its neighbour at `(nx, ny, nz)`
    /// is air or outside the chunk.
    fn push_face(&self, out: &mut Vec<MeshFace>, x: isize, y: isize, z: isize, face: Face, nx: isize, ny: isize, nz: isize)
        requires
            in_chunk(x as int) && in_chunk(y as int) && in_chunk(z as int),
            nx == x + face_offset(face).0,
            ny == y + face_offset(face).1,
            nz == z + face_offset(face).2,
        ensures
            final(out)@ == old(out)@ + face_if(self.spec_blocks(), x as int, y as int, z as int, face),
    {
        let ghost before = out@;
        if self.get_block(nx, ny, nz).unwrap_or(BLOCK_AIR) == BLOCK_AIR {
            out.push(MeshFace { x, y, z, face });
            assert(out@ =~= before + face_if(self.spec_blocks(), x as int, y as int, z as int, face));
        } else {
            assert(out@ =~= before + face_if(self.spec_blocks(), x as int, y as int, z as int, face));
        }
    }

    /// The faces the chunk's mesh shows: for every solid block, in storage order,
    /// the sides that face air. The geometry built from them is the mesh.
    #[verifier::rlimit(40)]
    pub fn render_into_simple_mesh(&self) -> (r: Vec<MeshFace>)
        ensures
            r@ == faces_before(self.spec_blocks(), CHUNK_VOLUME as int),
    {
        let mut out: Vec<MeshFace> = Vec::new();
        let mut i: usize = 0;
        while i < CHUNK_VOLUME
            invariant
                i <= CHUNK_VOLUME,
                self.spec_blocks().len() == CHUNK_VOLUME,
                out@ == faces_before(self.spec_blocks(), i as int),
            decreases CHUNK_VOLUME - i,
        {
            let x = (i % 16) as isize;
            let z = ((i / 16) % 16) as isize;
            let y = (i / 256) as isize;
            proof {
                lemma_index_coords(i as u32);
            }
            let ghost before = out@;
            let block = self.get_block(x, y, z).unwrap_or(BLOCK_AIR);
            if block != BLOCK_AIR {
                self.push_face(&mut out, x, y, z, Face::Ypos, x, y + 1, z);
                self.push_face(&mut out, x, y, z, Face::Yneg, x, y - 1, z);
                self.push_face(&mut out, x, y, z, Face::Zneg, x, y, z - 1);
                self.push_face(&mut out, x, y, z, Face::Zpos, x, y, z + 1);
                self.push_face(&mut out, x, y, z, Face::Xneg, x - 1, y, z);
                self.push_face(&mut out, x, y, z, Face::Xpos, x + 1, y, z);
            }
            assert(out@ =~= before + block_faces(self.spec_blocks(), i as int));
            i = i + 1;
        }
        out
    }
}

/// The place inside a chunk that storage index `j` stands for.
proof fn lemma_index_coords(j: u32)
    requires
        j < 4096,
    ensures
        block_index((j % 16) as int, (j / 256) as int, ((j / 16) % 16) as int) == j,
        j % 16 < 16 && j / 256 < 16 && (j / 16) % 16 < 16,
{
    assert((j / 256) * 256 + ((j / 16) % 16) * 16 + j % 16 == j) by (bit_vector)
        requires j < 4096;
    assert(j / 256 < 16) by (bit_vector)
        requires j < 4096;
}

/// Which faces the blocks stored below index `n` show.
proof fn lemma_faces_before(blocks: Seq<Block>, n: int, x: int, y: int, z: int, f: Face)
    requires
        0 <= n <= 4096,
        blocks.len() == 4096,
        in_chunk(x) && in_chunk(y) && in_chunk(z),
    ensures
        faces_before(blocks, n).contains(MeshFace { x: x as isize, y: y as isize, z: z as isize, face: f })
            <==> (block_index(x, y, z) < n && blocks[block_index(x, y, z)] != BLOCK_AIR && f != Face::Omni
                && open_towards(blocks, x, y, z, f)),
    decreases n,
{
    broadcast use vstd::seq_lib::group_seq_properties;
    let mf = MeshFace { x: x as isize, y: y as isize, z: z as isize, face: f };
    if n > 0 {
        lemma_faces_before(blocks, n - 1, x, y, z, f);
        let j = n - 1;
        lemma_index_coords(j as u32);
        let (a, c, b) = (j % 16, (j / 16) % 16, j / 256);
        lemma_block_index(x, y, z, a, b, c);
        let faces = block_faces(blocks, j);
        if blocks[j] != BLOCK_AIR {
            assert(faces =~= face_if(blocks, a, b, c, Face::Ypos) + face_if(blocks, a, b, c, Face::Yneg) + face_if(
                blocks,
                a,
                b,
                c,
                Face::Zneg,
            ) + face_if(blocks, a, b, c, Face::Zpos) + face_if(blocks, a, b, c, Face::Xneg) + face_if(
                blocks,
                a,
                b,
                c,
                Face::Xpos,
            ));
        }
        assert(faces.contains(mf) <==> (j == block_index(x, y, z) && blocks[j] != BLOCK_AIR && f != Face::Omni
            && open_towards(blocks, x, y, z, f)));
    }
}

/// The mesh of a chunk shows exactly the faces of solid blocks that face air (or
/// the outside of the chunk), each once per block and side.
pub proof fn law_mesh_faces(c: &Chunk, x: int, y: int, z: int, f: Face)
    requires
        in_chunk(x) && in_chunk(y) && in_chunk(z),
    ensures
        faces_before(c.spec_blocks(), CHUNK_VOLUME as int).contains(
            MeshFace { x: x as isize, y: y as isize, z: z as isize, face: f },
        ) <==> (c.spec_blocks()[block_index(x, y, z)] != BLOCK_AIR && f != Face::Omni && open_towards(
            c.spec_blocks(),
            x,
            y,
            z,
            f,
        )),
{
    lemma_block_index(x, y, z, x, y, z);
    lemma_faces_before(c.spec_blocks(), CHUNK_VOLUME as int, x, y, z, f);
}

////////////////////////////////////////////////////////////////////////////////

/// What a storage holds, chunk by chunk: each chunk's position and blocks.
pub type VoxelContents = Seq<(ChunkCoord, Seq<Block>)>;

/// The first chunk at or after index `i` that sits at `pos`.
pub open spec fn first_at_from(c: VoxelContents, pos: ChunkCoord, i: int) -> Option<int>
    decreases c.len() - i,
{
    if i < 0 || i >= c.len() {
        None
    } else if c[i].0 == pos {
        Some(i)
    } else {
        first_at_from(c, pos, i + 1)
    }
}

/// The first chunk that sits at `pos`.
pub open spec fn first_at(c: VoxelContents, pos: ChunkCoord) -> Option<int> {
    first_at_from(c, pos, 0)
}

pub proof fn lemma_first_at_from(c: VoxelContents, pos: ChunkCoord, i: int)
    requires
        0 <= i,
    ensures
        match first_at_from(c, pos, i) {
            Some(j) => i <= j < c.len() && c[j].0 == pos
                && forall|k: int| i <= k < j ==> c[k].0 != pos,
            None => forall|k: int| i <= k < c.len() ==> c[k].0 != pos,
        },
    decreases c.len() - i,
{
    if i < c.len() && c[i].0 != pos {
        lemma_first_at_from(c, pos, i + 1);
    }
}

/// Two contents whose chunks sit at the same positions find the same first chunk.
pub proof fn lemma_first_at_same_positions(c: VoxelContents, d: VoxelContents, pos: ChunkCoord, i: int)
    requires
        c.len() == d.len(),
        forall|k: int| 0 <= k < c.len() ==> (#[trigger] c[k]).0 == d[k].0,
    ensures
        first_at_from(c, pos, i) == first_at_from(d, pos, i),
    decreases c.len() - i,
{
    if 0 <= i < c.len() {
        assert(c[i].0 == d[i].0);
        lemma_first_at_same_positions(c, d, pos, i + 1);
    }
}

/// The chunk that holds the block at `pos`.
pub open spec fn chunk_of(pos: BlockCoord) -> ChunkCoord {
    ChunkCoord { x: chunk_part(pos.x), y: chunk_part(pos.y), z: chunk_part(pos.z) }
}

/// Where the block at `pos` is stored inside its chunk.
pub open spec fn index_in_chunk(pos: BlockCoord) -> int {
    block_index(local_part(pos.x) as int, local_part(pos.y) as int, local_part(pos.z) as int)
}

/// The block a storage holds at `pos`, if a chunk for it is present.
pub open spec fn stored_at(c: VoxelContents, pos: BlockCoord) -> Option<Block> {
    match first_at(c, chunk_of(pos)) {
        Some(i) => Some(c[i].1[index_in_chunk(pos)]),
        None => None,
    }
}

/// The contents after putting `state` at `pos`, if a chunk for it is present.
pub open spec fn put_at(c: VoxelContents, pos: BlockCoord, state: Block) -> VoxelContents {
    match first_at(c, chunk_of(pos)) {
        Some(i) => c.update(i, (c[i].0, c[i].1.update(index_in_chunk(pos), state))),
        None => c,
    }
}

/// The world range a configuration gives (4 where it gives none).
pub open spec fn voxel_range(config: toml::value::Table) -> int {
    match table_integer(config, "range"@) {
        Some(v) => v as isize as int,
        None => 4,
    }
}

/// The world height a configuration gives (3 where it gives none).
pub open spec fn voxel_height(config: toml::value::Table) -> int {
    match table_integer(config, "height"@) {
        Some(v) => v as isize as int,
        None => 3,
    }
}

/// The position of the `i`-th chunk of a world of the given range, `side` chunks wide.
pub open spec fn grid_position(range: int, side: int, i: int) -> ChunkCoord {
    let p = generated_position(range, side, i);
    ChunkCoord { x: p.x, y: p.y, z: p.z }
}

/// Whether a chunk holds the fresh grid: solid edges, air inside.
pub open spec fn is_grid_chunk(blocks: Seq<Block>) -> bool {
    &&& blocks.len() == CHUNK_VOLUME
    &&& forall|a: int, b: int, c: int|
        in_chunk(a) && in_chunk(b) && in_chunk(c) ==> #[trigger] blocks[block_index(a, b, c)]
            == if on_edge(a, b, c) { BLOCK_ADM } else { BLOCK_AIR }
}

pub struct ChunkStorage {
    chunks: Vec<Chunk>,
}

impl ChunkStorage {
    pub closed spec fn spec_chunks(&self) -> Seq<Chunk> {
        self.chunks@
    }

    /// Each chunk's position and blocks, in storage order.
    pub open spec fn contents(&self) -> VoxelContents {
        self.spec_chunks().map_values(|ch: Chunk| (ch.pos, ch.spec_blocks()))
    }

    /// The world: for every `y` in `0..height`, `z` and `x` in `-range..range` (in
    /// that nesting) a fresh grid chunk; `range` and `height` come from the
    /// configuration, 4 and 3 where it gives none.
    pub fn new(config: &toml::value::Table) -> (r: ChunkStorage)
        ensures
            ({
                let range = voxel_range(*config);
                let height = voxel_height(*config);
                let side = if range > 0 { 2 * range } else { 0int };
                let count = if height > 0 { height * side * side } else { 0int };
                &&& r.contents().len() == count
                &&& forall|i: int| 0 <= i < count ==> (#[trigger] r.contents()[i]).0 == grid_position(range, side, i)
                &&& forall|i: int| 0 <= i < count ==> is_grid_chunk(#[trigger] r.contents()[i].1)
            }),
    {
        let range: isize = match get_integer(config, "range") { Some(v) => v as isize, None => 4 };
        let height: isize = match get_integer(config, "height") { Some(v) => v as isize, None => 3 };
        let mut storage = ChunkStorage { chunks: Vec::new() };
        if range <= 0 {
            return storage;
        }
        let ghost side = 2 * range;
        let mut y: isize = 0;
        while y < height
            invariant
                range == voxel_range(*config),
                height == voxel_height(*config),
                range > 0,
                0 <= y,
                height > 0 ==> y <= height,
                height <= 0 ==> y == 0,
                side == 2 * range,
                storage.contents().len() == y * side * side,
                forall|i: int| 0 <= i < storage.contents().len() ==> (#[trigger] storage.contents()[i]).0
                    == grid_position(range as int, side, i),
                forall|i: int| 0 <= i < storage.contents().len() ==> is_grid_chunk(#[trigger] storage.contents()[i].1),
            decreases height - y,
        {
            let mut z: isize = -range;
            assert((z + range) * side == 0) by (nonlinear_arith)
                requires z + range == 0;
            while z < range
                invariant
                    range == voxel_range(*config),
                    height == voxel_height(*config),
                    range > 0,
                    0 <= y < height,
                    side == 2 * range,
                    -range <= z <= range,
                    storage.contents().len() == y * side * side + (z + range) * side,
                    forall|i: int| 0 <= i < storage.contents().len() ==> (#[trigger] storage.contents()[i]).0
                        == grid_position(range as int, side, i),
                    forall|i: int| 0 <= i < storage.contents().len() ==> is_grid_chunk(#[trigger] storage.contents()[i].1),
                decreases range - z,
            {
                let mut x: isize = -range;
                assert(y * side * side + (z + range) * side + (x + range) == y * side * side + (z + range) * side);
                while x < range
                    invariant
                        range == voxel_range(*config),
                        height == voxel_height(*config),
                        range > 0,
                        0 <= y < height,
                        -range <= z < range,
                        side == 2 * range,
                        -range <= x <= range,
                        storage.contents().len() == y * side * side + (z + range) * side + (x + range),
                        forall|i: int| 0 <= i < storage.contents().len() ==> (#[trigger] storage.contents()[i]).0
                            == grid_position(range as int, side, i),
                        forall|i: int| 0 <= i < storage.contents().len() ==> is_grid_chunk(#[trigger] storage.contents()[i].1),
                    decreases range - x,
                {
                    let chunk = Chunk::new(x, y, z);
                    let ghost n = storage.contents().len();
                    let ghost before = storage.contents();
                    let ghost entry = (chunk.pos, chunk.spec_blocks());
                    proof {
                        lemma_generated_position(range as int, side, y as int, z as int, x as int);
                    }
                    storage.chunks.push(chunk);
                    assert(storage.contents() =~= before.push(entry));
                    assert(storage.contents()[n as int].0 == grid_position(range as int, side, n as int));
                    x = x + 1;
                }
                proof {
                    assert(y * side * side + (z + range) * side + side == y * side * side + (z + 1 + range) * side) by (nonlinear_arith);
                }
                z = z + 1;
            }
            proof {
                assert(y * side * side + (range + range) * side == (y + 1) * side * side) by (nonlinear_arith)
                    requires side == 2 * range;
            }
            y = y + 1;
        }
        storage
    }

    /// Index of the first chunk at `pos`, if any.
    fn find_chunk(&self, pos: &ChunkCoord) -> (r: Option<usize>)
        ensures
            match r {
                Some(i) => first_at(self.contents(), *pos) == Some(i as int),
                None => first_at(self.contents(), *pos) is None,
            },
    {
        let mut i: usize = 0;
        while i < self.chunks.len()
            invariant
                0 <= i <= self.chunks@.len(),
                first_at(self.contents(), *pos) == first_at_from(self.contents(), *pos, i as int),
            decreases self.chunks@.len() - i,
        {
            if self.chunks[i].pos == *pos {
                return Some(i);
            }
            i = i + 1;
        }
        None
    }

    /// The block at `pos`, if a chunk for it is present.
    pub fn get_block(&self, pos: &BlockCoord) -> (r: Option<Block>)
        ensures
            r == stored_at(self.contents(), *pos),
    {
        let cpos = ChunkCoord::new_from_block(pos);
        let csm = CHUNK_SIZE_MASK as isize;
        proof {
            lemma_chunk_split(pos.x);
            lemma_chunk_split(pos.y);
            lemma_chunk_split(pos.z);
            lemma_first_at_from(self.contents(), cpos, 0);
            assert(csm == 15);
        }
        match self.find_chunk(&cpos) {
            Some(i) => {
                let cx = pos.x & csm;
                let cy = pos.y & csm;
                let cz = pos.z & csm;
                match self.chunks[i].get_block(cx, cy, cz) {
                    Some(x) => return Some(x),
                    None => (),
                }
            },
            None => (),
        }
        return None;
    }

    /// Puts `state` at `pos` if a chunk for it is present, and returns whether one was.
    pub fn set_block(&mut self, pos: &BlockCoord, state: Block) -> (r: bool)
        ensures
            final(self).contents() == put_at(old(self).contents(), *pos, state),
            r == first_at(old(self).contents(), chunk_of(*pos)) is Some,
    {
        let cpos = ChunkCoord::new_from_block(pos);
        let csm = CHUNK_SIZE_MASK as isize;
        proof {
            lemma_chunk_split(pos.x);
            lemma_chunk_split(pos.y);
            lemma_chunk_split(pos.z);
            lemma_first_at_from(self.contents(), cpos, 0);
            assert(csm == 15);
        }
        let ghost before = self.contents();
        match self.find_chunk(&cpos) {
            Some(i) => {
                let cx = pos.x & csm;
                let cy = pos.y & csm;
                let cz = pos.z & csm;
                self.chunks[i].set_block(cx, cy, cz, state);
                proof {
                    let idx = index_in_chunk(*pos);
                    assert(idx == block_index((pos.x & 15) as int, (pos.y & 15) as int, (pos.z & 15) as int));
                    assert(self.contents()[i as int] == put_at(before, *pos, state)[i as int]);
                    assert(self.contents() =~= put_at(before, *pos, state));
                }
                true
            },
            None => {
                assert(self.contents() =~= put_at(before, *pos, state));
                false
            },
        }
    }

    /// The first block along a ray that is not air, given the positions the ray
    /// visits, each with the one visited before it: the previous position, the
    /// position, and the block there. Positions without a chunk are passed over.
    pub fn raycast(&mut self, steps: &[(BlockCoord, BlockCoord)]) -> (r: Option<(BlockCoord, BlockCoord, Block)>)
        ensures
            *final(self) == *old(self),
            r == voxel_first_hit(old(self).contents(), steps@, 0),
    {
        let mut i: usize = 0;
        while i < steps.len()
            invariant
                i <= steps@.len(),
                *self == *old(self),
                voxel_first_hit(self.contents(), steps@, 0) == voxel_first_hit(self.contents(), steps@, i as int),
            decreases steps@.len() - i,
        {
            let (last_pos, pos) = steps[i];
            match self.get_block(&pos) {
                Some(block) => {
                    if block != BLOCK_AIR {
                        return Some((last_pos, pos, block));
                    }
                },
                None => {},
            }
            i = i + 1;
        }
        None
    }

    /// Puts `state` at every position the ray visits, in order.
    pub fn raycast_fill(&mut self, steps: &[BlockCoord], state: Block)
        ensures
            final(self).contents() == voxel_fill_along(old(self).contents(), steps@, state, steps@.len() as int),
    {
        let mut i: usize = 0;
        while i < steps.len()
            invariant
                i <= steps@.len(),
                self.contents() == voxel_fill_along(old(self).contents(), steps@, state, i as int),
            decreases steps@.len() - i,
        {
            self.set_block(&steps[i], state);
            i = i + 1;
        }
    }
}

/// Reading a position after putting a block there gives that block back, when a

/// The first step, from index `i` on, whose position holds a block other than
/// air: the previous position, the position and the block.
pub open spec fn voxel_first_hit(c: VoxelContents, steps: Seq<(BlockCoord, BlockCoord)>, i: int) -> Option<(BlockCoord, BlockCoord, Block)>
    decreases steps.len() - i,
{
    if i < 0 || i >= steps.len() {
        None
    } else {
        match stored_at(c, steps[i].1) {
            Some(b) => if b != BLOCK_AIR {
                Some((steps[i].0, steps[i].1, b))
            } else {
                voxel_first_hit(c, steps, i + 1)
            },
            None => voxel_first_hit(c, steps, i + 1),
        }
    }
}

/// The contents after putting `state` at the first `n` positions, in order.
pub open spec fn voxel_fill_along(c: VoxelContents, steps: Seq<BlockCoord>, state: Block, n: int) -> VoxelContents
    decreases n,
{
    if n <= 0 {
        c
    } else {
        put_at(voxel_fill_along(c, steps, state, n - 1), steps[n - 1], state)
    }
}

/// chunk for the position is present; other positions read as before.
pub proof fn law_voxel_read_after_write(c: VoxelContents, pos: BlockCoord, state: Block, other: BlockCoord)
    requires
        forall|i: int| 0 <= i < c.len() ==> (#[trigger] c[i]).1.len() == CHUNK_VOLUME,
    ensures
        first_at(c, chunk_of(pos)) is Some ==> stored_at(put_at(c, pos, state), pos) == Some(state),
        first_at(c, chunk_of(pos)) is None ==> stored_at(put_at(c, pos, state), pos) is None,
        other != pos ==> stored_at(put_at(c, pos, state), other) == stored_at(c, other),
{
    lemma_first_at_from(c, chunk_of(pos), 0);
    lemma_chunk_split(pos.x);
    lemma_chunk_split(pos.y);
    lemma_chunk_split(pos.z);
    lemma_chunk_split(other.x);
    lemma_chunk_split(other.y);
    lemma_chunk_split(other.z);
    let p = put_at(c, pos, state);
    assert(forall|i: int| 0 <= i < c.len() ==> p[i].0 == (#[trigger] c[i]).0);
    lemma_first_at_same_positions(c, p, chunk_of(other), 0);
    lemma_first_at_same_positions(c, p, chunk_of(pos), 0);
    if other != pos {
        lemma_first_at_from(c, chunk_of(other), 0);
        if chunk_of(other) == chunk_of(pos) {
            lemma_block_index(
                local_part(pos.x) as int, local_part(pos.y) as int, local_part(pos.z) as int,
                local_part(other.x) as int, local_part(other.y) as int, local_part(other.z) as int,
            );
            if let Some(i) = first_at(c, chunk_of(pos)) {
                assert(p[i].1[index_in_chunk(other)] == c[i].1[index_in_chunk(other)]);
            }
        } else {
            if let Some(i) = first_at(c, chunk_of(pos)) {
                if let Some(j) = first_at(c, chunk_of(other)) {
                    assert(p[j] == c[j]);
                }
            }
        }
    }
}

} // verus!
