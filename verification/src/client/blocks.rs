//! Chunks of block states and the storage that holds them.

use vstd::prelude::*;
use crate::blocks as blockdef;
use crate::blocks::BlockState;
use crate::blocks::BlockCoord;
use crate::blocks::universe::share_universe;
use crate::util::clock_nanos;
use crate::config::{get_integer, table_integer};
use vstd::arithmetic::div_mod::lemma_fundamental_div_mod_converse;

pub mod static_bakery;
pub mod render;

verus! {

pub const CHUNK_SIZE: usize = 16;
pub const CHUNK_SIZE_SHIFT: usize = 4;
pub const CHUNK_SIZE_MASK: usize = 15;
pub const CHUNK_SLICE: usize = 256;
pub const CHUNK_VOLUME: usize = 4096;

/// Whether a coordinate lies inside a chunk.
pub open spec fn in_chunk(v: int) -> bool {
    0 <= v < 16
}

/// Where the block at `(x, y, z)` inside a chunk is stored.
pub open spec fn block_index(x: int, y: int, z: int) -> int {
    y * 256 + z * 16 + x
}

/// The chunk coordinate that holds the block coordinate `v`: `v >> 4`.
pub open spec fn chunk_part(v: isize) -> isize {
    v >> 4
}

/// The coordinate of block `v` inside its chunk: `v & 15`.
pub open spec fn local_part(v: isize) -> isize {
    v & 15
}

/// A block coordinate is its chunk coordinate times 16 plus its coordinate inside the chunk.
pub proof fn lemma_chunk_split(v: isize)
    ensures
        0 <= local_part(v) < 16,
        chunk_part(v) * 16 + local_part(v) == v,
        isize::MIN / 16 <= chunk_part(v) <= isize::MAX / 16,
{
    assert(0 <= (v & 15) < 16) by (bit_vector);
    assert(((v >> 4) * 16 + (v & 15)) as int == v as int) by (bit_vector);
}

/// Distinct positions inside a chunk are stored at distinct places, all below 4096.
pub proof fn lemma_block_index(x: int, y: int, z: int, a: int, b: int, c: int)
    requires
        in_chunk(x) && in_chunk(y) && in_chunk(z),
        in_chunk(a) && in_chunk(b) && in_chunk(c),
    ensures
        0 <= block_index(x, y, z) < 4096,
        block_index(x, y, z) == block_index(a, b, c) <==> (x == a && y == b && z == c),
{
}

/// Whether two coordinates both lie on a face of the chunk (0 or 15).
pub open spec fn on_faces(a: int, b: int) -> bool {
    (a == 0 || a == 15) && (b == 0 || b == 15)
}

/// Whether `(x, y, z)` lies on one of the twelve edges of the chunk.
pub open spec fn on_edge(x: int, y: int, z: int) -> bool {
    on_faces(y, z) || on_faces(x, z) || on_faces(x, y)
}

#[derive(PartialEq, Eq, Structural, Copy, Clone, Hash, Debug)]
pub struct ChunkCoord {
    pub x: isize,
    pub y: isize,
    pub z: isize,
}

impl ChunkCoord {
    pub fn new_from_chunk(x: isize, y: isize, z: isize) -> (r: ChunkCoord)
        ensures
            r == (ChunkCoord { x, y, z }),
    {
        ChunkCoord { x, y, z }
    }

    /// The chunk that holds the given block.
    pub fn new_from_block(pos: &BlockCoord) -> (r: ChunkCoord)
        ensures
            r == (ChunkCoord { x: chunk_part(pos.x), y: chunk_part(pos.y), z: chunk_part(pos.z) }),
    {
        ChunkCoord { x: pos.x >> 4, y: pos.y >> 4, z: pos.z >> 4 }
    }

    pub fn set(&mut self, x: isize, y: isize, z: isize)
        ensures
            *final(self) == (ChunkCoord { x, y, z }),
    {
        self.x = x;
        self.y = y;
        self.z = z;
    }

    pub fn add(&self, x: isize, y: isize, z: isize) -> (r: Self)
        requires
            isize::MIN <= self.x + x <= isize::MAX,
            isize::MIN <= self.y + y <= isize::MAX,
            isize::MIN <= self.z + z <= isize::MAX,
        ensures
            r.x == self.x + x && r.y == self.y + y && r.z == self.z + z,
    {
        Self { x: self.x + x, y: self.y + y, z: self.z + z }
    }

    pub fn sub(&self, x: isize, y: isize, z: isize) -> (r: Self)
        requires
            isize::MIN <= self.x - x <= isize::MAX,
            isize::MIN <= self.y - y <= isize::MAX,
            isize::MIN <= self.z - z <= isize::MAX,
        ensures
            r.x == self.x - x && r.y == self.y - y && r.z == self.z - z,
    {
        Self { x: self.x - x, y: self.y - y, z: self.z - z }
    }
}

/// A cube of 16 x 16 x 16 block states.
pub struct Chunk {
    pub pos: ChunkCoord,
    pub blockdef: blockdef::UniverseRef,
    pub blocks: Box<[BlockState; CHUNK_VOLUME]>,
    pub last_update: u128,
}

/// Whether `s` is the default state of a block the universe registers under `name`.
pub open spec fn is_named_default(u: blockdef::Universe, name: Seq<char>, s: BlockState) -> bool {
    exists|k: usize| #[trigger] u.spec_blocks().contains_key(k)
        && u.spec_blocks()[k].spec_name() == name
        && u.spec_blocks()[k].spec_default_state() == s
}

impl Chunk {
    /// The block states, in storage order.
    pub open spec fn spec_blocks(&self) -> Seq<BlockState> {
        self.blocks@
    }

    /// The state at `(x, y, z)` inside the chunk.
    pub open spec fn spec_block_at(&self, x: int, y: int, z: int) -> BlockState {
        self.spec_blocks()[block_index(x, y, z)]
    }

    /// A chunk at the given position, filled with the default state of "air".
    pub fn new(blockdef: blockdef::UniverseRef, x: isize, y: isize, z: isize) -> (r: Chunk)
        requires
            blockdef.has_block_named("air"@),
        ensures
            r.pos == (ChunkCoord { x, y, z }),
            r.blockdef == blockdef,
            r.spec_blocks().len() == CHUNK_VOLUME,
            is_named_default(*blockdef, "air"@, r.spec_blocks()[0]),
            forall|i: int| 0 <= i < CHUNK_VOLUME ==> #[trigger] r.spec_blocks()[i] == r.spec_blocks()[0],
    {
        let air = blockdef.get_block_by_name_unchecked("air").get_default_state();
        Chunk {
            pos: ChunkCoord { x, y, z },
            blockdef: share_universe(&blockdef),
            blocks: Box::new([air; CHUNK_VOLUME]),
            last_update: clock_nanos(),
        }
    }

    /// The position inside a chunk, if the value is one.
    pub fn clamp_chunk_coord(value: isize) -> (r: Option<usize>)
        ensures
            match r {
                Some(v) => in_chunk(value as int) && v == value,
                None => !in_chunk(value as int),
            },
    {
        if value < 0 {
            return None;
        }
        if value >= CHUNK_SIZE as isize {
            return None;
        }
        return Some(value as usize);
    }

    /// The state at `(x, y, z)`, if that lies inside the chunk.
    pub fn get_block(&self, x: isize, y: isize, z: isize) -> (r: Option<BlockState>)
        requires
            self.spec_blocks().len() == CHUNK_VOLUME,
        ensures
            match r {
                Some(s) => in_chunk(x as int) && in_chunk(y as int) && in_chunk(z as int)
                    && s == self.spec_block_at(x as int, y as int, z as int),
                None => !(in_chunk(x as int) && in_chunk(y as int) && in_chunk(z as int)),
            },
    {
        let x = match Chunk::clamp_chunk_coord(x) { Some(v) => v, None => return None };
        let y = match Chunk::clamp_chunk_coord(y) { Some(v) => v, None => return None };
        let z = match Chunk::clamp_chunk_coord(z) { Some(v) => v, None => return None };
        let index = y * CHUNK_SLICE + z * CHUNK_SIZE + x;
        Some(self.blocks[index])
    }

    /// Puts `state` at `(x, y, z)`. Returns `Some` when it changed the chunk: the
    /// position lies inside it and held a state with another id. Only a change
    /// touches the time of the last update, which becomes the clock's reading.
    pub fn set_block(&mut self, x: isize, y: isize, z: isize, state: BlockState) -> (r: Option<()>)
        requires
            old(self).spec_blocks().len() == CHUNK_VOLUME,
        ensures
            final(self).pos == old(self).pos,
            final(self).blockdef == old(self).blockdef,
            final(self).spec_blocks().len() == CHUNK_VOLUME,
            ({
                let inside = in_chunk(x as int) && in_chunk(y as int) && in_chunk(z as int);
                let i = block_index(x as int, y as int, z as int);
                if inside && old(self).spec_blocks()[i].id != state.id {
                    &&& r is Some
                    &&& final(self).spec_blocks() == old(self).spec_blocks().update(i, state)
                } else {
                    &&& r is None
                    &&& final(self).spec_blocks() == old(self).spec_blocks()
                    &&& final(self).last_update == old(self).last_update
                }
            }),
    {
        let now = clock_nanos();
        self.set_block_at(x, y, z, state, now)
    }

    /// `set_block` with the time of the change given: a change makes `now` the
    /// time of the last update.
    pub fn set_block_at(&mut self, x: isize, y: isize, z: isize, state: BlockState, now: u128) -> (r: Option<()>)
        requires
            old(self).spec_blocks().len() == CHUNK_VOLUME,
        ensures
            final(self).pos == old(self).pos,
            final(self).blockdef == old(self).blockdef,
            final(self).spec_blocks().len() == CHUNK_VOLUME,
            ({
                let inside = in_chunk(x as int) && in_chunk(y as int) && in_chunk(z as int);
                let i = block_index(x as int, y as int, z as int);
                if inside && old(self).spec_blocks()[i].id != state.id {
                    &&& r is Some
                    &&& final(self).spec_blocks() == old(self).spec_blocks().update(i, state)
                    &&& final(self).last_update == now
                } else {
                    &&& r is None
                    &&& final(self).spec_blocks() == old(self).spec_blocks()
                    &&& final(self).last_update == old(self).last_update
                }
            }),
    {
        let x = match Chunk::clamp_chunk_coord(x) { Some(v) => v, None => return None };
        let y = match Chunk::clamp_chunk_coord(y) { Some(v) => v, None => return None };
        let z = match Chunk::clamp_chunk_coord(z) { Some(v) => v, None => return None };
        let index = y * CHUNK_SLICE + z * CHUNK_SIZE + x;
        if self.blocks[index] == state {
            return None;
        }
        self.blocks[index] = state;
        self.last_update = now;
        Some(())
    }

    /// Fills the bottom layer (`y == 0`) with `fill`; the rest stays as it was.
    pub fn fill_with_floor(&mut self, fill: BlockState)
        requires
            old(self).spec_blocks().len() == CHUNK_VOLUME,
        ensures
            final(self).pos == old(self).pos,
            final(self).blockdef == old(self).blockdef,
            final(self).spec_blocks().len() == CHUNK_VOLUME,
            forall|x: int, y: int, z: int|
                in_chunk(x) && in_chunk(y) && in_chunk(z) ==> #[trigger] final(self).spec_blocks()[block_index(x, y, z)]
                    == if y == 0 { fill } else { old(self).spec_blocks()[block_index(x, y, z)] },
    {
        let ghost start = self.spec_blocks();
        for z in 0..CHUNK_SIZE as isize
            invariant
                self.spec_blocks().len() == CHUNK_VOLUME,
                self.pos == old(self).pos,
                self.blockdef == old(self).blockdef,
                start == old(self).spec_blocks(),
                forall|a: int, b: int, c: int|
                    in_chunk(a) && in_chunk(b) && in_chunk(c) ==> #[trigger] self.spec_blocks()[block_index(a, b, c)]
                        == if b == 0 && c < z { fill } else { start[block_index(a, b, c)] },
        {
            for x in 0..CHUNK_SIZE as isize
                invariant
                    0 <= z < 16,
                    self.spec_blocks().len() == CHUNK_VOLUME,
                    self.pos == old(self).pos,
                    self.blockdef == old(self).blockdef,
                    start == old(self).spec_blocks(),
                    forall|a: int, b: int, c: int|
                        in_chunk(a) && in_chunk(b) && in_chunk(c) ==> #[trigger] self.spec_blocks()[block_index(a, b, c)]
                            == if b == 0 && (c < z || (c == z && a < x)) { fill } else { start[block_index(a, b, c)] },
            {
                let ghost before = self.spec_blocks();
                assert(forall|a: int, b: int, c: int|
                    in_chunk(a) && in_chunk(b) && in_chunk(c) ==> #[trigger] before[block_index(a, b, c)]
                        == if b == 0 && (c < z || (c == z && a < x)) { fill } else { start[block_index(a, b, c)] });
                self.set_block(x, 0, z, fill);
                assert forall|a: int, b: int, c: int|
                    in_chunk(a) && in_chunk(b) && in_chunk(c) implies #[trigger] self.spec_blocks()[block_index(a, b, c)]
                        == if b == 0 && (c < z || (c == z && a < x + 1)) { fill } else { start[block_index(a, b, c)] } by {
                    lemma_block_index(a, b, c, x as int, 0, z as int);
                    if a == x && b == 0 && c == z {
                        lemma_state_eq(before[block_index(a, b, c)], fill);
                    }
                }
            }
        }
    }

    /// Puts `fill` at `(x, y, z)` inside the chunk, as `set_block` does.
    fn put(&mut self, x: isize, y: isize, z: isize, fill: BlockState)
        requires
            old(self).spec_blocks().len() == CHUNK_VOLUME,
            in_chunk(x as int) && in_chunk(y as int) && in_chunk(z as int),
        ensures
            final(self).pos == old(self).pos,
            final(self).blockdef == old(self).blockdef,
            final(self).spec_blocks().len() == CHUNK_VOLUME,
            forall|a: int, b: int, c: int|
                in_chunk(a) && in_chunk(b) && in_chunk(c) ==> #[trigger] final(self).spec_blocks()[block_index(a, b, c)]
                    == if a == x && b == y && c == z { fill } else { old(self).spec_blocks()[block_index(a, b, c)] },
    {
        let ghost before = self.spec_blocks();
        self.set_block(x, y, z, fill);
        assert forall|a: int, b: int, c: int|
            in_chunk(a) && in_chunk(b) && in_chunk(c) implies #[trigger] self.spec_blocks()[block_index(a, b, c)]
                == if a == x && b == y && c == z { fill } else { before[block_index(a, b, c)] } by {
            lemma_block_index(a, b, c, x as int, y as int, z as int);
            lemma_state_eq(before[block_index(a, b, c)], fill);
        }
    }

    /// Fills the twelve edges of the chunk with `fill`; the rest stays as it was.
    #[verifier::rlimit(40)]
    pub fn fill_with_grid(&mut self, fill: BlockState)
        requires
            old(self).spec_blocks().len() == CHUNK_VOLUME,
        ensures
            final(self).pos == old(self).pos,
            final(self).blockdef == old(self).blockdef,
            final(self).spec_blocks().len() == CHUNK_VOLUME,
            forall|x: int, y: int, z: int|
                in_chunk(x) && in_chunk(y) && in_chunk(z) ==> #[trigger] final(self).spec_blocks()[block_index(x, y, z)]
                    == if on_edge(x, y, z) { fill } else { old(self).spec_blocks()[block_index(x, y, z)] },
    {
        let ghost start = self.spec_blocks();
        let e: isize = 15;
        for i in 0..16isize
            invariant
                e == 15,
                self.spec_blocks().len() == CHUNK_VOLUME,
                self.pos == old(self).pos,
                self.blockdef == old(self).blockdef,
                start == old(self).spec_blocks(),
                forall|a: int, b: int, c: int|
                    in_chunk(a) && in_chunk(b) && in_chunk(c) ==> #[trigger] self.spec_blocks()[block_index(a, b, c)]
                        == if (a < i && on_faces(b, c)) || (b < i && on_faces(a, c)) || (c < i && on_faces(a, b)) {
                            fill
                        } else {
                            start[block_index(a, b, c)]
                        },
        {
            let ghost before = self.spec_blocks();
            assert(forall|a: int, b: int, c: int|
                in_chunk(a) && in_chunk(b) && in_chunk(c) ==> #[trigger] before[block_index(a, b, c)]
                    == if (a < i && on_faces(b, c)) || (b < i && on_faces(a, c)) || (c < i && on_faces(a, b)) {
                        fill
                    } else {
                        start[block_index(a, b, c)]
                    });
            self.put(i, 0, 0, fill);
            self.put(i, e, 0, fill);
            self.put(i, 0, e, fill);
            self.put(i, e, e, fill);
            self.put(0, i, 0, fill);
            self.put(e, i, 0, fill);
            self.put(0, i, e, fill);
            self.put(e, i, e, fill);
            self.put(0, 0, i, fill);
            self.put(e, 0, i, fill);
            self.put(0, e, i, fill);
            self.put(e, e, i, fill);
            assert forall|a: int, b: int, c: int|
                in_chunk(a) && in_chunk(b) && in_chunk(c) implies #[trigger] self.spec_blocks()[block_index(a, b, c)]
                    == if (a < i + 1 && on_faces(b, c)) || (b < i + 1 && on_faces(a, c)) || (c < i + 1 && on_faces(a, b)) {
                        fill
                    } else {
                        start[block_index(a, b, c)]
                    } by {
            }
        }
    }
}

/// States with the same id are the same state.
pub proof fn lemma_state_eq(a: BlockState, b: BlockState)
    ensures
        a.id == b.id ==> a == b,
{
}

////////////////////////////////////////////////////////////////////////////////

/// What a storage holds, chunk by chunk: each chunk's position and block states.
pub type ChunkContents = Seq<(ChunkCoord, Seq<BlockState>)>;

/// The first chunk at or after index `i` that sits at `pos`.
pub open spec fn first_at_from(c: ChunkContents, pos: ChunkCoord, i: int) -> Option<int>
    decreases c.len() - i,
{
    if i < 0 || i >= c.len() {
        None
    } else if c[i].0 == pos {
        Some(i)
    } else {
        first_at_from(c, pos, i + 1)
    }
}

/// The first chunk that sits at `pos`.
pub open spec fn first_at(c: ChunkContents, pos: ChunkCoord) -> Option<int> {
    first_at_from(c, pos, 0)
}

/// The last chunk before index `n` that sits at `pos`.
pub open spec fn last_before(c: ChunkContents, pos: ChunkCoord, n: int) -> Option<int>
    decreases n,
{
    if n <= 0 || n > c.len() {
        None
    } else if c[n - 1].0 == pos {
        Some(n - 1)
    } else {
        last_before(c, pos, n - 1)
    }
}

pub proof fn lemma_first_at_from(c: ChunkContents, pos: ChunkCoord, i: int)
    requires
        0 <= i,
    ensures
        match first_at_from(c, pos, i) {
            Some(j) => i <= j < c.len() && c[j].0 == pos
                && forall|k: int| i <= k < j ==> c[k].0 != pos,
            None => forall|k: int| i <= k < c.len() ==> c[k].0 != pos,
        },
    decreases c.len() - i,
{
    if i < c.len() && c[i].0 != pos {
        lemma_first_at_from(c, pos, i + 1);
    }
}

/// The terrain range a configuration gives (4 where it gives none).
pub open spec fn config_range(config: toml::value::Table) -> int {
    match table_integer(config, "range"@) {
        Some(v) => v as isize as int,
        None => 4,
    }
}

/// The terrain height a configuration gives (3 where it gives none).
pub open spec fn config_height(config: toml::value::Table) -> int {
    match table_integer(config, "height"@) {
        Some(v) => v as isize as int,
        None => 3,
    }
}

/// Whether generating a terrain of this range and height stays within the
/// machine's integers: the count reserved, the loop bounds, and the world
/// position of every block column.
pub open spec fn storage_extent_fits(range: int, height: int) -> bool {
    &&& isize::MIN <= height * (range * 2 + 1) <= isize::MAX
    &&& isize::MIN <= height * (range * 2 + 1) * (range * 2 + 1) <= isize::MAX
    &&& isize::MIN < range <= isize::MAX / 32
    &&& -(isize::MAX / 32) <= range
}

/// The position of the `i`-th generated chunk.
pub open spec fn generated_position(range: int, side: int, i: int) -> ChunkCoord {
    ChunkCoord {
        x: (i % side - range) as isize,
        y: (i / (side * side)) as isize,
        z: ((i / side) % side - range) as isize,
    }
}

pub proof fn lemma_generated_position(range: int, side: int, y: int, z: int, x: int)
    requires
        side == 2 * range,
        range > 0,
        0 <= y,
        -range <= z < range,
        -range <= x < range,
    ensures
        generated_position(range, side, y * side * side + (z + range) * side + (x + range))
            == (ChunkCoord { x: x as isize, y: y as isize, z: z as isize }),
{
    let i = y * side * side + (z + range) * side + (x + range);
    let q = y * side + (z + range);
    assert(i == q * side + (x + range)) by (nonlinear_arith)
        requires i == y * side * side + (z + range) * side + (x + range), q == y * side + (z + range);
    lemma_fundamental_div_mod_converse(i, side, q, x + range);
    lemma_fundamental_div_mod_converse(q, side, y, z + range);
    let r = (z + range) * side + (x + range);
    assert(r < side * side) by (nonlinear_arith)
        requires r == (z + range) * side + (x + range), 0 <= z + range < side, 0 <= x + range < side;
    assert(0 <= r) by (nonlinear_arith)
        requires r == (z + range) * side + (x + range), 0 <= z + range, 0 <= x + range, side > 0;
    assert(i == y * (side * side) + r) by (nonlinear_arith)
        requires i == y * side * side + (z + range) * side + (x + range), r == (z + range) * side + (x + range);
    lemma_fundamental_div_mod_converse(i, side * side, y, r);
}

/// Whether the column `(x, z)` of a floor chunk holds bedrock from the floor up
/// to a height the terrain gives for the column's world position, and air above.
pub open spec fn column_generated<F: Fn(isize, isize) -> isize>(
    ch: Chunk,
    terrain: &F,
    air: BlockState,
    bedrock: BlockState,
    x: int,
    z: int,
) -> bool {
    exists|n: isize| {
        &&& #[trigger] call_ensures(terrain, ((ch.pos.x * 16 + x) as isize, (ch.pos.z * 16 + z) as isize), n)
        &&& forall|y: int| in_chunk(y) ==> #[trigger] ch.spec_blocks()[block_index(x, y, z)]
            == if y == 0 || y < n { bedrock } else { air }
    }
}

/// Whether a chunk holds what the terrain generator puts in it, given the states
/// of air and bedrock: air everywhere, except at `y == 0`, where every block
/// column is generated from the terrain.
pub open spec fn blocks_generated<F: Fn(isize, isize) -> isize>(
    ch: Chunk,
    terrain: &F,
    air: BlockState,
    bedrock: BlockState,
) -> bool {
    &&& ch.spec_blocks().len() == CHUNK_VOLUME
    &&& if ch.pos.y != 0 {
        forall|x: int, y: int, z: int|
            in_chunk(x) && in_chunk(y) && in_chunk(z) ==> #[trigger] ch.spec_blocks()[block_index(x, y, z)] == air
    } else {
        forall|x: int, z: int|
            in_chunk(x) && in_chunk(z) ==> #[trigger] column_generated(ch, terrain, air, bedrock, x, z)
    }
}

/// Whether a chunk holds what the terrain generator puts in it, with air and
/// bedrock the default states of blocks the universe registers under those names.
pub open spec fn generated_blocks<F: Fn(isize, isize) -> isize>(
    u: blockdef::Universe,
    ch: Chunk,
    terrain: &F,
) -> bool {
    exists|air: BlockState, bedrock: BlockState|
        #![trigger is_named_default(u, "air"@, air), is_named_default(u, "bedrock"@, bedrock)]
        is_named_default(u, "air"@, air) && is_named_default(u, "bedrock"@, bedrock)
            && blocks_generated(ch, terrain, air, bedrock)
}

/// The position of neighbour slot `j` around `pos`.
pub open spec fn around(pos: ChunkCoord, j: int) -> ChunkCoord {
    ChunkCoord {
        x: (pos.x + j % 3 - 1) as isize,
        y: (pos.y + j / 9 - 1) as isize,
        z: (pos.z + (j / 3) % 3 - 1) as isize,
    }
}

/// The chunk that holds the block at `pos`.
pub open spec fn chunk_of(pos: BlockCoord) -> ChunkCoord {
    ChunkCoord { x: chunk_part(pos.x), y: chunk_part(pos.y), z: chunk_part(pos.z) }
}

/// Where the block at `pos` is stored inside its chunk.
pub open spec fn index_in_chunk(pos: BlockCoord) -> int {
    block_index(local_part(pos.x) as int, local_part(pos.y) as int, local_part(pos.z) as int)
}

/// The state a storage holds at `pos`, if a chunk for it is present.
pub open spec fn stored_at(c: ChunkContents, pos: BlockCoord) -> Option<BlockState> {
    match first_at(c, chunk_of(pos)) {
        Some(i) => Some(c[i].1[index_in_chunk(pos)]),
        None => None,
    }
}


/// The first step, from index `i` on, whose position holds a state other than
/// `air`: the previous position, the position and the state.
pub open spec fn first_hit(c: ChunkContents, steps: Seq<(BlockCoord, BlockCoord)>, air: BlockState, i: int) -> Option<(BlockCoord, BlockCoord, BlockState)>
    decreases steps.len() - i,
{
    if i < 0 || i >= steps.len() {
        None
    } else {
        match stored_at(c, steps[i].1) {
            Some(s) => if s.id != air.id {
                Some((steps[i].0, steps[i].1, s))
            } else {
                first_hit(c, steps, air, i + 1)
            },
            None => first_hit(c, steps, air, i + 1),
        }
    }
}

/// The contents after putting `state` at the first `n` positions, in order.
pub open spec fn fill_along(c: ChunkContents, steps: Seq<BlockCoord>, state: BlockState, n: int) -> ChunkContents
    decreases n,
{
    if n <= 0 {
        c
    } else {
        put_at(fill_along(c, steps, state, n - 1), steps[n - 1], state)
    }
}

/// The contents after putting `state` at `pos`, if a chunk for it is present.
pub open spec fn put_at(c: ChunkContents, pos: BlockCoord, state: BlockState) -> ChunkContents {
    match first_at(c, chunk_of(pos)) {
        Some(i) => c.update(i, (c[i].0, c[i].1.update(index_in_chunk(pos), state))),
        None => c,
    }
}

/// The chunk `(dx, dy, dz)` chunks away from `c`.
pub open spec fn chunk_offset(c: ChunkCoord, dx: int, dy: int, dz: int) -> ChunkCoord {
    ChunkCoord { x: (c.x + dx) as isize, y: (c.y + dy) as isize, z: (c.z + dz) as isize }
}

/// Whether chunk `i` is marked as updated when the block at `pos` changes: it is
/// the first chunk at the block's own position or at one of the six next to it.
pub open spec fn marked_by(c: ChunkContents, pos: BlockCoord, i: int) -> bool {
    let cp = chunk_of(pos);
    ||| first_at(c, cp) == Some(i)
    ||| first_at(c, chunk_offset(cp, -1, 0, 0)) == Some(i)
    ||| first_at(c, chunk_offset(cp, 1, 0, 0)) == Some(i)
    ||| first_at(c, chunk_offset(cp, 0, -1, 0)) == Some(i)
    ||| first_at(c, chunk_offset(cp, 0, 1, 0)) == Some(i)
    ||| first_at(c, chunk_offset(cp, 0, 0, -1)) == Some(i)
    ||| first_at(c, chunk_offset(cp, 0, 0, 1)) == Some(i)
}

/// Where a chunk is first found depends on the positions of the chunks alone.
pub proof fn lemma_first_at_positions(c1: ChunkContents, c2: ChunkContents, pos: ChunkCoord, i: int)
    requires
        c1.len() == c2.len(),
        forall|k: int| 0 <= k < c1.len() ==> #[trigger] c1[k].0 == c2[k].0,
    ensures
        first_at_from(c1, pos, i) == first_at_from(c2, pos, i),
    decreases c1.len() - i,
{
    if 0 <= i < c1.len() && c1[i].0 != pos {
        lemma_first_at_positions(c1, c2, pos, i + 1);
    }
}

pub struct ChunkStorage {
    blockdef: blockdef::UniverseRef,
    chunks: Vec<Chunk>,
}

impl ChunkStorage {
    pub closed spec fn spec_chunks(&self) -> Seq<Chunk> {
        self.chunks@
    }

    pub closed spec fn spec_blockdef(&self) -> blockdef::UniverseRef {
        self.blockdef
    }

    /// Each chunk's position and block states, in storage order.
    pub open spec fn contents(&self) -> ChunkContents {
        self.spec_chunks().map_values(|ch: Chunk| (ch.pos, ch.spec_blocks()))
    }

    /// Every chunk holds a full set of block states.
    pub open spec fn wf(&self) -> bool {
        forall|i: int| 0 <= i < self.spec_chunks().len() ==> (#[trigger] self.spec_chunks()[i]).spec_blocks().len()
            == CHUNK_VOLUME
    }

    /// The first chunk at `pos`, if any.
    pub fn get_chunk(&self, pos: &ChunkCoord) -> (r: Option<&Chunk>)
        ensures
            match r {
                Some(c) => first_at(self.contents(), *pos) matches Some(i) && *c == self.spec_chunks()[i],
                None => first_at(self.contents(), *pos) is None,
            },
    {
        proof {
            lemma_first_at_from(self.contents(), *pos, 0);
        }
        let mut i: usize = 0;
        while i < self.chunks.len()
            invariant
                0 <= i <= self.chunks@.len(),
                forall|k: int| 0 <= k < i ==> self.contents()[k].0 != *pos,
                first_at(self.contents(), *pos) == first_at_from(self.contents(), *pos, i as int),
            decreases self.chunks@.len() - i,
        {
            if self.chunks[i].pos == *pos {
                return Some(&self.chunks[i]);
            }
            i = i + 1;
        }
        None
    }

    /// Index of the first chunk at `pos`, if any.
    fn find_chunk(&self, pos: &ChunkCoord) -> (r: Option<usize>)
        ensures
            match r {
                Some(i) => first_at(self.contents(), *pos) == Some(i as int),
                None => first_at(self.contents(), *pos) is None,
            },
    {
        let mut i: usize = 0;
        while i < self.chunks.len()
            invariant
                0 <= i <= self.chunks@.len(),
                first_at(self.contents(), *pos) == first_at_from(self.contents(), *pos, i as int),
            decreases self.chunks@.len() - i,
        {
            if self.chunks[i].pos == *pos {
                return Some(i);
            }
            i = i + 1;
        }
        None
    }

    /// The first chunk at `pos`, if any, for changing.
    pub fn get_chunk_mut(&mut self, pos: &ChunkCoord) -> (r: Option<&mut Chunk>)
        ensures
            match r {
                Some(c) => first_at(old(self).contents(), *pos) matches Some(i)
                    && *c == old(self).spec_chunks()[i]
                    && final(self).spec_chunks() == old(self).spec_chunks().update(i, *final(c))
                    && final(self).spec_blockdef() == old(self).spec_blockdef(),
                None => first_at(old(self).contents(), *pos) is None && *final(self) == *old(self),
            },
    {
        proof {
            lemma_first_at_from(self.contents(), *pos, 0);
        }
        match self.find_chunk(pos) {
            Some(i) => Some(&mut self.chunks[i]),
            None => None,
        }
    }

    /// The state at `pos`, if a chunk for it is present.
    pub fn get_block(&self, pos: &BlockCoord) -> (r: Option<BlockState>)
        requires
            self.wf(),
        ensures
            r == stored_at(self.contents(), *pos),
    {
        let cpos = ChunkCoord::new_from_block(pos);
        let csm = CHUNK_SIZE_MASK as isize;
        proof {
            lemma_chunk_split(pos.x);
            lemma_chunk_split(pos.y);
            lemma_chunk_split(pos.z);
            lemma_first_at_from(self.contents(), cpos, 0);
            assert(csm == 15);
        }
        match self.get_chunk(&cpos) {
            Some(chunk) => {
                let cx = pos.x & csm;
                let cy = pos.y & csm;
                let cz = pos.z & csm;
                match chunk.get_block(cx, cy, cz) {
                    Some(x) => return Some(x),
                    None => (),
                }
            },
            None => (),
        }
        return None;
    }

    /// Sets the time of the last update of the first chunk at `pos`, if any.
    fn touch(&mut self, pos: &ChunkCoord, now: u128)
        requires
            old(self).wf(),
        ensures
            final(self).wf(),
            final(self).contents() == old(self).contents(),
            final(self).spec_blockdef() == old(self).spec_blockdef(),
            match first_at(old(self).contents(), *pos) {
                Some(i) => final(self).spec_chunks() == old(self).spec_chunks().update(
                    i,
                    (Chunk { last_update: now, ..old(self).spec_chunks()[i] }),
                ),
                None => final(self).spec_chunks() == old(self).spec_chunks(),
            },
    {
        proof {
            lemma_first_at_from(self.contents(), *pos, 0);
        }
        let ghost before = *self;
        match self.get_chunk_mut(pos) {
            Some(c) => {
                c.last_update = now;
            },
            None => {},
        }
        proof {
            assert(self.contents() =~= before.contents());
        }
    }

    /// Puts `state` at `pos` if a chunk for it is present. Returns whether that
    /// changed the chunk (the position held a state with another id); then that
    /// chunk and the six chunks around it are marked as updated at the clock's
    /// reading, as `set_block_at` says.
    pub fn set_block(&mut self, pos: &BlockCoord, state: BlockState) -> (r: bool)
        requires
            old(self).wf(),
        ensures
            final(self).wf(),
            final(self).spec_blockdef() == old(self).spec_blockdef(),
            final(self).contents() == put_at(old(self).contents(), *pos, state),
            r == (stored_at(old(self).contents(), *pos) matches Some(s) && s.id != state.id),
            final(self).spec_chunks().len() == old(self).spec_chunks().len(),
            forall|i: int|
                0 <= i < old(self).spec_chunks().len() && !(r && marked_by(old(self).contents(), *pos, i))
                    ==> #[trigger] final(self).spec_chunks()[i].last_update == old(self).spec_chunks()[i].last_update,
    {
        let now = clock_nanos();
        self.set_block_at(pos, state, now)
    }

    /// `set_block` with the time of the change given: where the block changed, the
    /// chunk that holds it and the chunks next to it take `now` as the time of their
    /// last update; every other chunk keeps its own.
    pub fn set_block_at(&mut self, pos: &BlockCoord, state: BlockState, now: u128) -> (r: bool)
        requires
            old(self).wf(),
        ensures
            final(self).wf(),
            final(self).spec_blockdef() == old(self).spec_blockdef(),
            final(self).contents() == put_at(old(self).contents(), *pos, state),
            r == (stored_at(old(self).contents(), *pos) matches Some(s) && s.id != state.id),
            final(self).spec_chunks().len() == old(self).spec_chunks().len(),
            forall|i: int|
                0 <= i < old(self).spec_chunks().len() ==> {
                    &&& (#[trigger] final(self).spec_chunks()[i]).blockdef == old(self).spec_chunks()[i].blockdef
                    &&& final(self).spec_chunks()[i].last_update == if r && marked_by(old(self).contents(), *pos, i) {
                        now
                    } else {
                        old(self).spec_chunks()[i].last_update
                    }
                },
    {
        let cpos = ChunkCoord::new_from_block(pos);
        let csm = CHUNK_SIZE_MASK as isize;
        proof {
            lemma_chunk_split(pos.x);
            lemma_chunk_split(pos.y);
            lemma_chunk_split(pos.z);
            lemma_first_at_from(self.contents(), cpos, 0);
            assert(csm == 15);
        }
        let ghost before = self.contents();
        let success = match self.get_chunk_mut(&cpos) {
            Some(chunk) => {
                let cx = pos.x & csm;
                let cy = pos.y & csm;
                let cz = pos.z & csm;
                match chunk.set_block_at(cx, cy, cz, state, now) {
                    Some(_) => true,
                    None => false,
                }
            },
            None => false,
        };
        proof {
            match first_at(before, cpos) {
                Some(i) => {
                    let idx = index_in_chunk(*pos);
                    assert(idx == block_index((pos.x & 15) as int, (pos.y & 15) as int, (pos.z & 15) as int));
                    lemma_state_eq(before[i].1[idx], state);
                    if before[i].1[idx].id == state.id {
                        assert(before[i].1.update(idx, state) =~= before[i].1);
                    }
                    assert(self.contents()[i] == put_at(before, *pos, state)[i]);
                    assert(forall|k: int| 0 <= k < before.len() && k != i ==> self.contents()[k] == #[trigger] before[k]);
                    assert(self.contents() =~= put_at(before, *pos, state));
                },
                None => {
                    assert(self.contents() =~= put_at(before, *pos, state));
                },
            }
        }
        let ghost mid = self.spec_chunks();
        proof {
            lemma_first_at_positions(before, self.contents(), cpos, 0);
        }
        let ghost o = old(self).spec_chunks();
        proof {
            lemma_first_at_positions(before, self.contents(), chunk_offset(cpos, -1, 0, 0), 0);
            lemma_first_at_positions(before, self.contents(), chunk_offset(cpos, 1, 0, 0), 0);
            lemma_first_at_positions(before, self.contents(), chunk_offset(cpos, 0, -1, 0), 0);
            lemma_first_at_positions(before, self.contents(), chunk_offset(cpos, 0, 1, 0), 0);
            lemma_first_at_positions(before, self.contents(), chunk_offset(cpos, 0, 0, -1), 0);
            lemma_first_at_positions(before, self.contents(), chunk_offset(cpos, 0, 0, 1), 0);
            assert forall|k: int| 0 <= k < o.len() implies (#[trigger] self.spec_chunks()[k]).blockdef == o[k].blockdef
                && self.spec_chunks()[k].last_update == (if (success && first_at(before, cpos) == Some(k)) { now } else { o[k].last_update }) by {}
        }
        if success {
            let n = cpos.add(-1, 0, 0);
            let ghost prev = self.spec_chunks();
            let ghost pc = self.contents();
            assert(n == chunk_offset(cpos, -1, 0, 0) && first_at(before, n) == first_at(pc, n));
            self.touch(&n, now);
            proof {
                assert forall|k: int| 0 <= k < o.len() implies (#[trigger] self.spec_chunks()[k]).blockdef == o[k].blockdef
                    && self.spec_chunks()[k].last_update == (if (success && first_at(before, cpos) == Some(k)) || first_at(before, chunk_offset(cpos, -1, 0, 0)) == Some(k) { now } else { o[k].last_update }) by {
                    lemma_first_at_from(pc, n, 0);
                    match first_at(pc, n) {
                        Some(i) => {
                            assert(self.spec_chunks() == prev.update(i, Chunk { last_update: now, ..prev[i] }));
                        },
                        None => {
                            assert(self.spec_chunks() == prev);
                        },
                    }
                }
            }
            let n = cpos.add(1, 0, 0);
            let ghost prev = self.spec_chunks();
            let ghost pc = self.contents();
            assert(n == chunk_offset(cpos, 1, 0, 0) && first_at(before, n) == first_at(pc, n));
            self.touch(&n, now);
            proof {
                assert forall|k: int| 0 <= k < o.len() implies (#[trigger] self.spec_chunks()[k]).blockdef == o[k].blockdef
                    && self.spec_chunks()[k].last_update == (if (success && first_at(before, cpos) == Some(k)) || first_at(before, chunk_offset(cpos, -1, 0, 0)) == Some(k) || first_at(before, chunk_offset(cpos, 1, 0, 0)) == Some(k) { now } else { o[k].last_update }) by {
                    lemma_first_at_from(pc, n, 0);
                    match first_at(pc, n) {
                        Some(i) => {
                            assert(self.spec_chunks() == prev.update(i, Chunk { last_update: now, ..prev[i] }));
                        },
                        None => {
                            assert(self.spec_chunks() == prev);
                        },
                    }
                }
            }
            let n = cpos.add(0, -1, 0);
            let ghost prev = self.spec_chunks();
            let ghost pc = self.contents();
            assert(n == chunk_offset(cpos, 0, -1, 0) && first_at(before, n) == first_at(pc, n));
            self.touch(&n, now);
            proof {
                assert forall|k: int| 0 <= k < o.len() implies (#[trigger] self.spec_chunks()[k]).blockdef == o[k].blockdef
                    && self.spec_chunks()[k].last_update == (if (success && first_at(before, cpos) == Some(k)) || first_at(before, chunk_offset(cpos, -1, 0, 0)) == Some(k) || first_at(before, chunk_offset(cpos, 1, 0, 0)) == Some(k) || first_at(before, chunk_offset(cpos, 0, -1, 0)) == Some(k) { now } else { o[k].last_update }) by {
                    lemma_first_at_from(pc, n, 0);
                    match first_at(pc, n) {
                        Some(i) => {
                            assert(self.spec_chunks() == prev.update(i, Chunk { last_update: now, ..prev[i] }));
                        },
                        None => {
                            assert(self.spec_chunks() == prev);
                        },
                    }
                }
            }
            let n = cpos.add(0, 1, 0);
            let ghost prev = self.spec_chunks();
            let ghost pc = self.contents();
            assert(n == chunk_offset(cpos, 0, 1, 0) && first_at(before, n) == first_at(pc, n));
            self.touch(&n, now);
            proof {
                assert forall|k: int| 0 <= k < o.len() implies (#[trigger] self.spec_chunks()[k]).blockdef == o[k].blockdef
                    && self.spec_chunks()[k].last_update == (if (success && first_at(before, cpos) == Some(k)) || first_at(before, chunk_offset(cpos, -1, 0, 0)) == Some(k) || first_at(before, chunk_offset(cpos, 1, 0, 0)) == Some(k) || first_at(before, chunk_offset(cpos, 0, -1, 0)) == Some(k) || first_at(before, chunk_offset(cpos, 0, 1, 0)) == Some(k) { now } else { o[k].last_update }) by {
                    lemma_first_at_from(pc, n, 0);
                    match first_at(pc, n) {
                        Some(i) => {
                            assert(self.spec_chunks() == prev.update(i, Chunk { last_update: now, ..prev[i] }));
                        },
                        None => {
                            assert(self.spec_chunks() == prev);
                        },
                    }
                }
            }
            let n = cpos.add(0, 0, -1);
            let ghost prev = self.spec_chunks();
            let ghost pc = self.contents();
            assert(n == chunk_offset(cpos, 0, 0, -1) && first_at(before, n) == first_at(pc, n));
            self.touch(&n, now);
            proof {
                assert forall|k: int| 0 <= k < o.len() implies (#[trigger] self.spec_chunks()[k]).blockdef == o[k].blockdef
                    && self.spec_chunks()[k].last_update == (if (success && first_at(before, cpos) == Some(k)) || first_at(before, chunk_offset(cpos, -1, 0, 0)) == Some(k) || first_at(before, chunk_offset(cpos, 1, 0, 0)) == Some(k) || first_at(before, chunk_offset(cpos, 0, -1, 0)) == Some(k) || first_at(before, chunk_offset(cpos, 0, 1, 0)) == Some(k) || first_at(before, chunk_offset(cpos, 0, 0, -1)) == Some(k) { now } else { o[k].last_update }) by {
                    lemma_first_at_from(pc, n, 0);
                    match first_at(pc, n) {
                        Some(i) => {
                            assert(self.spec_chunks() == prev.update(i, Chunk { last_update: now, ..prev[i] }));
                        },
                        None => {
                            assert(self.spec_chunks() == prev);
                        },
                    }
                }
            }
            let n = cpos.add(0, 0, 1);
            let ghost prev = self.spec_chunks();
            let ghost pc = self.contents();
            assert(n == chunk_offset(cpos, 0, 0, 1) && first_at(before, n) == first_at(pc, n));
            self.touch(&n, now);
            proof {
                assert forall|k: int| 0 <= k < o.len() implies (#[trigger] self.spec_chunks()[k]).blockdef == o[k].blockdef
                    && self.spec_chunks()[k].last_update == (if (success && first_at(before, cpos) == Some(k)) || first_at(before, chunk_offset(cpos, -1, 0, 0)) == Some(k) || first_at(before, chunk_offset(cpos, 1, 0, 0)) == Some(k) || first_at(before, chunk_offset(cpos, 0, -1, 0)) == Some(k) || first_at(before, chunk_offset(cpos, 0, 1, 0)) == Some(k) || first_at(before, chunk_offset(cpos, 0, 0, -1)) == Some(k) || first_at(before, chunk_offset(cpos, 0, 0, 1)) == Some(k) { now } else { o[k].last_update }) by {
                    lemma_first_at_from(pc, n, 0);
                    match first_at(pc, n) {
                        Some(i) => {
                            assert(self.spec_chunks() == prev.update(i, Chunk { last_update: now, ..prev[i] }));
                        },
                        None => {
                            assert(self.spec_chunks() == prev);
                        },
                    }
                }
            }
        }
        return success;
    }

    /// The first block along a ray that is not `air`, given the positions the ray
    /// visits, each with the one visited before it: the previous position, the
    /// position, and the state there. Positions without a chunk are passed over.
    pub fn raycast_against(&self, steps: &[(BlockCoord, BlockCoord)], air: BlockState) -> (r: Option<(BlockCoord, BlockCoord, BlockState)>)
        requires
            self.wf(),
        ensures
            r == first_hit(self.contents(), steps@, air, 0),
    {
        let mut i: usize = 0;
        while i < steps.len()
            invariant
                i <= steps@.len(),
                self.wf(),
                first_hit(self.contents(), steps@, air, 0) == first_hit(self.contents(), steps@, air, i as int),
            decreases steps@.len() - i,
        {
            let pos = &steps[i].1;
            match self.get_block(pos) {
                Some(block) => {
                    if !(block == air) {
                        let last = &steps[i].0;
                        return Some((BlockCoord::new(last.x, last.y, last.z), BlockCoord::new(pos.x, pos.y, pos.z), block));
                    }
                },
                None => {},
            }
            i = i + 1;
        }
        None
    }

    /// The first block along a ray that is not the universe's air (a block the
    /// universe names "air" must exist), as `raycast_against` finds it.
    pub fn raycast(&mut self, steps: &[(BlockCoord, BlockCoord)]) -> (r: Option<(BlockCoord, BlockCoord, BlockState)>)
        requires
            old(self).wf(),
            old(self).spec_blockdef().has_block_named("air"@),
        ensures
            *final(self) == *old(self),
            exists|air: BlockState| #[trigger] is_named_default(*old(self).spec_blockdef(), "air"@, air)
                && r == first_hit(old(self).contents(), steps@, air, 0),
    {
        let block = self.blockdef.get_block_by_name_unchecked("air");
        let air = block.get_default_state();
        proof {
            let k = choose|k: usize| #[trigger] self.blockdef.spec_blocks().contains_key(k)
                && self.blockdef.spec_blocks()[k] == *block && block.spec_name() == "air"@;
            assert(is_named_default(*self.blockdef, "air"@, air));
        }
        let r = self.raycast_against(steps, air);
        r
    }

    /// Puts `state` at every position the ray visits, in order.
    pub fn raycast_fill(&mut self, steps: &[BlockCoord], state: BlockState)
        requires
            old(self).wf(),
        ensures
            final(self).wf(),
            final(self).spec_blockdef() == old(self).spec_blockdef(),
            final(self).contents() == fill_along(old(self).contents(), steps@, state, steps@.len() as int),
    {
        let mut i: usize = 0;
        while i < steps.len()
            invariant
                i <= steps@.len(),
                self.wf(),
                self.spec_blockdef() == old(self).spec_blockdef(),
                self.contents() == fill_along(old(self).contents(), steps@, state, i as int),
            decreases steps@.len() - i,
        {
            self.set_block(&steps[i], state);
            i = i + 1;
        }
    }

    /// Whether a terrain of this range and height can be generated within the
    /// machine's integers.
    pub fn extent_fits(range: isize, height: isize) -> (r: bool)
        ensures
            r == storage_extent_fits(range as int, height as int),
    {
        if range == isize::MIN || range > isize::MAX / 32 || range < -(isize::MAX / 32) {
            return false;
        }
        let side = range * 2 + 1;
        match height.checked_mul(side) {
            None => false,
            Some(hs) => hs.checked_mul(side).is_some(),
        }
    }

    /// Reads the range and height from the configuration and generates the
    /// terrain as `new` does, or gives `None` where the configured extent does
    /// not fit the machine's integers.
    pub fn from_config<F: Fn(isize, isize) -> isize>(
        blockdef: blockdef::UniverseRef,
        config: &toml::value::Table,
        terrain: &F,
    ) -> (r: Option<ChunkStorage>)
        requires
            blockdef.has_block_named("air"@),
            blockdef.has_block_named("bedrock"@),
            forall|wx: isize, wz: isize| terrain.requires((wx, wz)),
        ensures
            r is Some <==> storage_extent_fits(config_range(*config), config_height(*config)),
            r matches Some(s) ==> {
                let range = config_range(*config);
                let height = config_height(*config);
                let side = if range > 0 { 2 * range } else { 0int };
                let count = if height > 0 { height * side * side } else { 0int };
                &&& s.wf()
                &&& s.spec_blockdef() == blockdef
                &&& s.contents().len() == count
                &&& forall|i: int| 0 <= i < count ==> (#[trigger] s.contents()[i]).0 == generated_position(
                    range,
                    side,
                    i,
                )
                &&& forall|i: int| 0 <= i < s.spec_chunks().len() ==> generated_blocks(
                    *blockdef,
                    #[trigger] s.spec_chunks()[i],
                    terrain,
                )
            },
    {
        let range: isize = match get_integer(config, "range") { Some(v) => v as isize, None => 4 };
        let height: isize = match get_integer(config, "height") { Some(v) => v as isize, None => 3 };
        if !ChunkStorage::extent_fits(range, height) {
            return None;
        }
        Some(ChunkStorage::new(blockdef, config, terrain))
    }

    /// Generates the terrain: for every `y` in `0..height`, `z` and `x` in
    /// `-range..range` (in that nesting) a chunk of air. The chunks at `y == 0` get
    /// a floor of bedrock and, in each block column, bedrock up to the height that
    /// `terrain` gives for the column's world position (`terrain` stands for the
    /// noise field; `range` and `height` come from the configuration, 4 and 3
    /// where it gives none).
    pub fn new<F: Fn(isize, isize) -> isize>(
        blockdef: blockdef::UniverseRef,
        config: &toml::value::Table,
        terrain: &F,
    ) -> (r: ChunkStorage)
        requires
            blockdef.has_block_named("air"@),
            blockdef.has_block_named("bedrock"@),
            forall|wx: isize, wz: isize| terrain.requires((wx, wz)),
            storage_extent_fits(config_range(*config), config_height(*config)),
        ensures
            r.wf(),
            r.spec_blockdef() == blockdef,
            ({
                let range = config_range(*config);
                let height = config_height(*config);
                let side = if range > 0 { 2 * range } else { 0int };
                let count = if height > 0 { height * side * side } else { 0int };
                &&& r.contents().len() == count
                &&& forall|i: int| 0 <= i < count ==> (#[trigger] r.contents()[i]).0 == generated_position(
                    range,
                    side,
                    i,
                )
            }),
            forall|i: int| 0 <= i < r.spec_chunks().len() ==> generated_blocks(
                *blockdef,
                #[trigger] r.spec_chunks()[i],
                terrain,
            ),
    {
        let range: isize = match get_integer(config, "range") { Some(v) => v as isize, None => 4 };
        let height: isize = match get_integer(config, "height") { Some(v) => v as isize, None => 3 };
        let mut storage = ChunkStorage { blockdef: share_universe(&blockdef), chunks: Vec::new() };
        storage.chunks.reserve((height * (range * 2 + 1) * (range * 2 + 1)) as usize);
        let bedrock = blockdef.get_block_by_name_unchecked("bedrock").get_default_state();
        let ghost side = if range > 0 { 2 * range } else { 0int };
        let mut y: isize = 0;
        while y < height
            invariant
                range == config_range(*config),
                height == config_height(*config),
                storage_extent_fits(range as int, height as int),
                0 <= y,
                height > 0 ==> y <= height,
                height <= 0 ==> y == 0,
                side == if range > 0 { 2 * range } else { 0int },
                forall|wx: isize, wz: isize| terrain.requires((wx, wz)),
                blockdef.has_block_named("air"@),
                is_named_default(*blockdef, "bedrock"@, bedrock),
                storage.spec_blockdef() == blockdef,
                storage.wf(),
                storage.contents().len() == y * side * side,
                forall|i: int| 0 <= i < storage.contents().len() ==> (#[trigger] storage.contents()[i]).0
                    == generated_position(range as int, side, i),
                forall|i: int| 0 <= i < storage.spec_chunks().len() ==> generated_blocks(
                    *blockdef,
                    #[trigger] storage.spec_chunks()[i],
                    terrain,
                ),
            decreases height - y,
        {
            let mut z: isize = -range;
            assert((z + range) * side == 0) by (nonlinear_arith)
                requires z + range == 0;
            while z < range
                invariant
                    range == config_range(*config),
                    height == config_height(*config),
                    storage_extent_fits(range as int, height as int),
                    0 <= y < height,
                    side == if range > 0 { 2 * range } else { 0int },
                    -range <= z,
                    range > 0 ==> z <= range,
                    range <= 0 ==> z == -range,
                    forall|wx: isize, wz: isize| terrain.requires((wx, wz)),
                    blockdef.has_block_named("air"@),
                    is_named_default(*blockdef, "bedrock"@, bedrock),
                    storage.spec_blockdef() == blockdef,
                    storage.wf(),
                    storage.contents().len() == y * side * side + (z + range) * side,
                    forall|i: int| 0 <= i < storage.contents().len() ==> (#[trigger] storage.contents()[i]).0
                        == generated_position(range as int, side, i),
                    forall|i: int| 0 <= i < storage.spec_chunks().len() ==> generated_blocks(
                        *blockdef,
                        #[trigger] storage.spec_chunks()[i],
                        terrain,
                    ),
                decreases range - z,
            {
                let mut x: isize = -range;
                assert(y * side * side + (z + range) * side + (x + range) == y * side * side + (z + range) * side);
                while x < range
                    invariant
                        range == config_range(*config),
                        height == config_height(*config),
                        storage_extent_fits(range as int, height as int),
                        0 <= y < height,
                        -range <= z < range,
                        side == 2 * range,
                        -range <= x <= range,
                        forall|wx: isize, wz: isize| terrain.requires((wx, wz)),
                        blockdef.has_block_named("air"@),
                        is_named_default(*blockdef, "bedrock"@, bedrock),
                        storage.spec_blockdef() == blockdef,
                        storage.wf(),
                        storage.contents().len() == y * side * side + (z + range) * side + (x + range),
                        forall|i: int| 0 <= i < storage.contents().len() ==> (#[trigger] storage.contents()[i]).0
                            == generated_position(range as int, side, i),
                        forall|i: int| 0 <= i < storage.spec_chunks().len() ==> generated_blocks(
                            *blockdef,
                            #[trigger] storage.spec_chunks()[i],
                            terrain,
                        ),
                    decreases range - x,
                {
                    let chunk = generate_chunk(share_universe(&blockdef), x, y, z, bedrock, terrain);
                    let ghost n = storage.contents().len();
                    let ghost before = storage.contents();
                    let ghost entry = (chunk.pos, chunk.spec_blocks());
                    proof {
                        lemma_generated_position(range as int, side, y as int, z as int, x as int);
                    }
                    storage.chunks.push(chunk);
                    assert(storage.contents() =~= before.push(entry));
                    assert(storage.contents()[n as int].0 == generated_position(range as int, side, n as int));
                    x = x + 1;
                }
                proof {
                    assert(y * side * side + (z + range) * side + side == y * side * side + (z + 1 + range) * side) by (nonlinear_arith);
                }
                z = z + 1;
            }
            proof {
                if range > 0 {
                    assert(y * side * side + (range + range) * side == (y + 1) * side * side) by (nonlinear_arith)
                        requires side == 2 * range;
                } else {
                    assert(y * side * side + (z + range) * side == (y + 1) * side * side) by (nonlinear_arith)
                        requires side == 0;
                }
            }
            y = y + 1;
        }
        proof {
            if height <= 0 {
                assert(y == 0);
            }
        }
        storage
    }

    /// The chunks around `pos` (including it), one slot per neighbour: slot `j`
    /// is for the offset `(j % 3 - 1, j / 9 - 1, (j / 3) % 3 - 1)`. Each slot holds
    /// the last chunk at that position, if any.
    pub fn get_chunks_around(&self, pos: &ChunkCoord) -> (r: [Option<&Chunk>; 27])
        requires
            isize::MIN < pos.x < isize::MAX,
            isize::MIN < pos.y < isize::MAX,
            isize::MIN < pos.z < isize::MAX,
        ensures
            forall|j: int| 0 <= j < 27 ==> match #[trigger] r[j] {
                Some(c) => last_before(self.contents(), around(*pos, j), self.contents().len() as int)
                    matches Some(i) && *c == self.spec_chunks()[i],
                None => last_before(self.contents(), around(*pos, j), self.contents().len() as int) is None,
            },
    {
        let positions: [ChunkCoord; 27] = [
            pos.add(-1, -1, -1),
            pos.add(0, -1, -1),
            pos.add(1, -1, -1),
            pos.add(-1, -1, 0),
            pos.add(0, -1, 0),
            pos.add(1, -1, 0),
            pos.add(-1, -1, 1),
            pos.add(0, -1, 1),
            pos.add(1, -1, 1),
            pos.add(-1, 0, -1),
            pos.add(0, 0, -1),
            pos.add(1, 0, -1),
            pos.add(-1, 0, 0),
            pos.add(0, 0, 0),
            pos.add(1, 0, 0),
            pos.add(-1, 0, 1),
            pos.add(0, 0, 1),
            pos.add(1, 0, 1),
            pos.add(-1, 1, -1),
            pos.add(0, 1, -1),
            pos.add(1, 1, -1),
            pos.add(-1, 1, 0),
            pos.add(0, 1, 0),
            pos.add(1, 1, 0),
            pos.add(-1, 1, 1),
            pos.add(0, 1, 1),
            pos.add(1, 1, 1),
        ];
        assert(forall|j: int| 0 <= j < 27 ==> #[trigger] positions@[j] == around(*pos, j));
        let mut chunks: [Option<&Chunk>; 27] = [None; 27];
        let mut i: usize = 0;
        while i < self.chunks.len()
            invariant
                0 <= i <= self.chunks@.len(),
                forall|j: int| 0 <= j < 27 ==> #[trigger] positions@[j] == around(*pos, j),
                forall|j: int| 0 <= j < 27 ==> match #[trigger] chunks@[j] {
                    Some(c) => last_before(self.contents(), around(*pos, j), i as int) matches Some(k)
                        && *c == self.spec_chunks()[k],
                    None => last_before(self.contents(), around(*pos, j), i as int) is None,
                },
            decreases self.chunks@.len() - i,
        {
            let chunk = &self.chunks[i];
            let mut j: usize = 0;
            while j < 27
                invariant
                    0 <= i < self.chunks@.len(),
                    *chunk == self.spec_chunks()[i as int],
                    0 <= j <= 27,
                    forall|k: int| 0 <= k < 27 ==> #[trigger] positions@[k] == around(*pos, k),
                    forall|k: int| 0 <= k < 27 ==> match #[trigger] chunks@[k] {
                        Some(c) => last_before(self.contents(), around(*pos, k), if k < j { i + 1 } else { i as int })
                            matches Some(m) && *c == self.spec_chunks()[m],
                        None => last_before(self.contents(), around(*pos, k), if k < j { i + 1 } else { i as int }) is None,
                    },
                decreases 27 - j,
            {
                if chunk.pos == positions[j] {
                    chunks[j] = Some(chunk);
                }
                assert(self.contents()[i as int].0 == chunk.pos);
                j = j + 1;
            }
            i = i + 1;
        }
        chunks
    }

    /// The number of block positions the storage holds.
    pub fn get_approximate_volume(&self) -> (r: u64)
        requires
            self.spec_chunks().len() * CHUNK_VOLUME <= u64::MAX,
        ensures
            r == self.spec_chunks().len() * CHUNK_VOLUME,
    {
        (self.chunks.len() as u64) * (CHUNK_VOLUME as u64)
    }
}

/// Reading a position after putting a state there gives that state back, when a
/// chunk for the position is present; other positions read as before.
pub proof fn law_read_after_write(c: ChunkContents, pos: BlockCoord, state: BlockState, other: BlockCoord)
    requires
        forall|i: int| 0 <= i < c.len() ==> (#[trigger] c[i]).1.len() == CHUNK_VOLUME,
    ensures
        first_at(c, chunk_of(pos)) is Some ==> stored_at(put_at(c, pos, state), pos) == Some(state),
        first_at(c, chunk_of(pos)) is None ==> stored_at(put_at(c, pos, state), pos) is None,
        other != pos ==> stored_at(put_at(c, pos, state), other) == stored_at(c, other),
{
    lemma_first_at_from(c, chunk_of(pos), 0);
    lemma_chunk_split(pos.x);
    lemma_chunk_split(pos.y);
    lemma_chunk_split(pos.z);
    lemma_chunk_split(other.x);
    lemma_chunk_split(other.y);
    lemma_chunk_split(other.z);
    let p = put_at(c, pos, state);
    assert(forall|i: int| 0 <= i < c.len() ==> p[i].0 == (#[trigger] c[i]).0);
    assert(p.len() == c.len());
    lemma_first_at_same_positions(c, p, chunk_of(other), 0);
    lemma_first_at_same_positions(c, p, chunk_of(pos), 0);
    if other != pos {
        lemma_first_at_from(c, chunk_of(other), 0);
        if chunk_of(other) == chunk_of(pos) {
            assert(local_part(other.x) != local_part(pos.x) || local_part(other.y) != local_part(pos.y)
                || local_part(other.z) != local_part(pos.z));
            lemma_block_index(
                local_part(pos.x) as int, local_part(pos.y) as int, local_part(pos.z) as int,
                local_part(other.x) as int, local_part(other.y) as int, local_part(other.z) as int,
            );
            if let Some(i) = first_at(c, chunk_of(pos)) {
                assert(p[i].1[index_in_chunk(other)] == c[i].1[index_in_chunk(other)]);
            }
        } else {
            if let Some(i) = first_at(c, chunk_of(pos)) {
                if let Some(j) = first_at(c, chunk_of(other)) {
                    assert(j != i);
                    assert(p[j] == c[j]);
                }
            }
        }
    }
}

/// Two contents whose chunks sit at the same positions find the same first chunk.
pub proof fn lemma_first_at_same_positions(c: ChunkContents, d: ChunkContents, pos: ChunkCoord, i: int)
    requires
        c.len() == d.len(),
        forall|k: int| 0 <= k < c.len() ==> (#[trigger] c[k]).0 == d[k].0,
    ensures
        first_at_from(c, pos, i) == first_at_from(d, pos, i),
    decreases c.len() - i,
{
    if 0 <= i < c.len() {
        assert(c[i].0 == d[i].0);
        lemma_first_at_same_positions(c, d, pos, i + 1);
    }
}

/// Makes one chunk of the generated terrain at `(x, y, z)`.
fn generate_chunk<F: Fn(isize, isize) -> isize>(
    blockdef: blockdef::UniverseRef,
    x: isize,
    y: isize,
    z: isize,
    bedrock: BlockState,
    terrain: &F,
) -> (r: Chunk)
    requires
        blockdef.has_block_named("air"@),
        is_named_default(*blockdef, "bedrock"@, bedrock),
        forall|wx: isize, wz: isize| terrain.requires((wx, wz)),
        isize::MIN / 32 <= x <= isize::MAX / 32,
        isize::MIN / 32 <= z <= isize::MAX / 32,
    ensures
        r.pos == (ChunkCoord { x, y, z }),
        generated_blocks(*blockdef, r, terrain),
{
    let mut chunk = Chunk::new(share_universe(&blockdef), x, y, z);
    let ghost air = chunk.spec_blocks()[0];
    assert(forall|a: int, b: int, c: int|
        in_chunk(a) && in_chunk(b) && in_chunk(c) ==> #[trigger] chunk.spec_blocks()[block_index(a, b, c)] == air) by {
        assert forall|a: int, b: int, c: int| in_chunk(a) && in_chunk(b) && in_chunk(c) implies #[trigger] chunk.spec_blocks()[block_index(
            a,
            b,
            c,
        )] == air by {
            lemma_block_index(a, b, c, 0, 0, 0);
        }
    }
    if y == 0 {
        chunk.fill_with_floor(bedrock);
        let mut bz: isize = 0;
        while bz < 16
            invariant
                0 <= bz <= 16,
                y == 0,
                chunk.pos == (ChunkCoord { x, y, z }),
                chunk.spec_blocks().len() == CHUNK_VOLUME,
                forall|wx: isize, wz: isize| terrain.requires((wx, wz)),
                isize::MIN / 32 <= x <= isize::MAX / 32,
                isize::MIN / 32 <= z <= isize::MAX / 32,
                is_named_default(*blockdef, "air"@, air),
                forall|a: int, b: int, c: int|
                    in_chunk(a) && in_chunk(b) && in_chunk(c) && c >= bz ==> #[trigger] chunk.spec_blocks()[block_index(a, b, c)]
                        == if b == 0 { bedrock } else { air },
                forall|a: int, c: int|
                    in_chunk(a) && in_chunk(c) && c < bz ==> #[trigger] column_generated(chunk, terrain, air, bedrock, a, c),
            decreases 16 - bz,
        {
            let mut bx: isize = 0;
            while bx < 16
                invariant
                    0 <= bz < 16,
                    0 <= bx <= 16,
                    y == 0,
                    chunk.pos == (ChunkCoord { x, y, z }),
                    chunk.spec_blocks().len() == CHUNK_VOLUME,
                    forall|wx: isize, wz: isize| terrain.requires((wx, wz)),
                    isize::MIN / 32 <= x <= isize::MAX / 32,
                    isize::MIN / 32 <= z <= isize::MAX / 32,
                    is_named_default(*blockdef, "air"@, air),
                    forall|a: int, b: int, c: int|
                        in_chunk(a) && in_chunk(b) && in_chunk(c) && (c > bz || (c == bz && a >= bx)) ==> #[trigger] chunk.spec_blocks()[block_index(a, b, c)]
                            == if b == 0 { bedrock } else { air },
                    forall|a: int, c: int|
                        in_chunk(a) && in_chunk(c) && (c < bz || (c == bz && a < bx)) ==> #[trigger] column_generated(chunk, terrain, air, bedrock, a, c),
                decreases 16 - bx,
            {
                let n = terrain(x * 16 + bx, z * 16 + bz);
                let ghost before = chunk;
                fill_column(&mut chunk, bx, bz, n, bedrock);
                proof {
                    assert forall|a: int, c: int|
                        in_chunk(a) && in_chunk(c) && (c < bz || (c == bz && a < bx + 1)) implies #[trigger] column_generated(chunk, terrain, air, bedrock, a, c) by {
                        if a == bx && c == bz {
                            assert(call_ensures(terrain, ((chunk.pos.x * 16 + a) as isize, (chunk.pos.z * 16 + c) as isize), n));
                        } else {
                            assert(column_generated(before, terrain, air, bedrock, a, c));
                            let m = choose|m: isize| #[trigger] call_ensures(terrain, ((before.pos.x * 16 + a) as isize, (before.pos.z * 16 + c) as isize), m)
                                && forall|y: int| in_chunk(y) ==> #[trigger] before.spec_blocks()[block_index(a, y, c)]
                                    == if y == 0 || y < m { bedrock } else { air };
                            assert(call_ensures(terrain, ((chunk.pos.x * 16 + a) as isize, (chunk.pos.z * 16 + c) as isize), m));
                        }
                    }
                }
                bx = bx + 1;
            }
            bz = bz + 1;
        }
    }
    proof {
        assert(is_named_default(*blockdef, "air"@, air));
        assert(is_named_default(*blockdef, "bedrock"@, bedrock));
        if y != 0 {
            assert(blocks_generated(chunk, terrain, air, bedrock));
        } else {
            assert(blocks_generated(chunk, terrain, air, bedrock));
        }
    }
    chunk
}

/// Puts `bedrock` at the heights `0..n` of the column `(bx, bz)`.
fn fill_column(chunk: &mut Chunk, bx: isize, bz: isize, n: isize, bedrock: BlockState)
    requires
        old(chunk).spec_blocks().len() == CHUNK_VOLUME,
        in_chunk(bx as int) && in_chunk(bz as int),
    ensures
        final(chunk).pos == old(chunk).pos,
        final(chunk).blockdef == old(chunk).blockdef,
        final(chunk).spec_blocks().len() == CHUNK_VOLUME,
        forall|a: int, b: int, c: int|
            in_chunk(a) && in_chunk(b) && in_chunk(c) ==> #[trigger] final(chunk).spec_blocks()[block_index(a, b, c)]
                == if a == bx && c == bz && b < n { bedrock } else { old(chunk).spec_blocks()[block_index(a, b, c)] },
{
    let ghost start = chunk.spec_blocks();
    if n >= 0 {
        let mut by: isize = 0;
        while by < n
            invariant
                0 <= by <= n,
                in_chunk(bx as int) && in_chunk(bz as int),
                chunk.pos == old(chunk).pos,
                chunk.blockdef == old(chunk).blockdef,
                chunk.spec_blocks().len() == CHUNK_VOLUME,
                forall|a: int, b: int, c: int|
                    in_chunk(a) && in_chunk(b) && in_chunk(c) ==> #[trigger] chunk.spec_blocks()[block_index(a, b, c)]
                        == if a == bx && c == bz && b < by { bedrock } else { start[block_index(a, b, c)] },
            decreases n - by,
        {
            let ghost before = chunk.spec_blocks();
            chunk.set_block(bx, by, bz, bedrock);
            assert forall|a: int, b: int, c: int|
                in_chunk(a) && in_chunk(b) && in_chunk(c) implies #[trigger] chunk.spec_blocks()[block_index(a, b, c)]
                    == if a == bx && c == bz && b < by + 1 { bedrock } else { start[block_index(a, b, c)] } by {
                if in_chunk(by as int) {
                    lemma_block_index(a, b, c, bx as int, by as int, bz as int);
                    lemma_state_eq(before[block_index(a, b, c)], bedrock);
                }
            }
            by = by + 1;
        }
    }
}

} // verus!
