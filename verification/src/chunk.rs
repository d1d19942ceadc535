//! World coordinates, chunk coordinates and the dense block storage of one chunk.
use vstd::prelude::*;

use crate::block::BlockID;

verus! {

/// Blocks of a chunk along x.
pub const CHUNK_X: usize = 16;

/// Blocks of a chunk along y; a chunk reaches from the bottom of the world to its top.
pub const CHUNK_Y: usize = 256;

/// Blocks of a chunk along z.
pub const CHUNK_Z: usize = 16;

/// Blocks of a chunk.
pub const CHUNK_SIZE: usize = 65536;

/// Version of the stored form of a field chunk.
pub const STORAGE_VERSION: u8 = 2;

/// A block coordinate in the world.
#[derive(Copy, Clone, PartialEq, Eq, Hash, Debug, Structural)]
pub struct Position {
    pub x: i32,
    pub y: i32,
    pub z: i32,
}

/// A chunk coordinate in the horizontal plane.
#[derive(Copy, Clone, PartialEq, Eq, Hash, Debug, Structural)]
pub struct ChunkPos {
    pub x: i32,
    pub z: i32,
}

/// A column of 16 by 256 by 16 blocks.
#[derive(Clone, PartialEq, Debug)]
pub struct Chunk {
    pub blocks: Vec<BlockID>,
}

/// Why stored bytes are not a field chunk.
#[derive(Clone, Debug, PartialEq, Eq)]
pub enum DecodeError {
    Corrupted(String),
    VersionMismatch { found: u8, expected: u8 },
    LengthMismatch(usize),
}

/// Whether local coordinates lie inside a chunk.
pub open spec fn in_chunk(lx: int, ly: int, lz: int) -> bool {
    0 <= lx < 16 && 0 <= ly < 256 && 0 <= lz < 16
}

/// Place of a local coordinate in the block array: layer by layer, row by row.
pub open spec fn local_offset(lx: int, ly: int, lz: int) -> int {
    ly * 256 + lz * 16 + lx
}

/// Whether a height lies inside the world.
pub open spec fn is_world_height(y: int) -> bool {
    0 <= y < 256
}

/// The chunk that holds a position: the floor of a sixteenth of each horizontal coordinate.
pub open spec fn chunk_of(pos: Position) -> ChunkPos {
    ChunkPos { x: (pos.x as int / 16) as i32, z: (pos.z as int / 16) as i32 }
}

/// A number that stands for a chunk coordinate.
pub open spec fn chunk_key(pos: ChunkPos) -> u64 {
    ((pos.x + 0x8000_0000) * 0x1_0000_0000 + (pos.z + 0x8000_0000)) as u64
}

/// The chunk coordinate that a number stands for.
pub open spec fn chunk_of_key(key: u64) -> ChunkPos {
    ChunkPos {
        x: (key as int / 0x1_0000_0000 - 0x8000_0000) as i32,
        z: (key as int % 0x1_0000_0000 - 0x8000_0000) as i32,
    }
}

/// The quotient rounded towards negative infinity.
fn div_floor(a: i32, b: i32) -> (r: i32)
    requires
        b > 0,
    ensures
        r == a as int / b as int,
{
    if a >= 0 {
        a / b
    } else {
        let m: i32 = -1 - a;
        let q: i32 = m / b;
        assert(a as int / b as int == -1 - q) by (nonlinear_arith)
            requires
                q == m as int / b as int,
                m == -1 - a,
                m >= 0,
                b > 0,
        ;
        -1 - q
    }
}

impl Position {
    pub fn new(x: i32, y: i32, z: i32) -> (r: Position)
        ensures
            r == (Position { x, y, z }),
    {
        Position { x, y, z }
    }

    /// The chunk that holds this position.
    pub fn to_chunk_pos(self) -> (r: ChunkPos)
        ensures
            r == chunk_of(self),
    {
        ChunkPos { x: div_floor(self.x, CHUNK_X as i32), z: div_floor(self.z, CHUNK_Z as i32) }
    }

    /// Index of this position inside its chunk; `None` below or above the world.
    pub fn local_index(self) -> (r: Option<usize>)
        ensures
            r == (if is_world_height(self.y as int) {
                Some(local_offset(self.x as int % 16, self.y as int, self.z as int % 16) as usize)
            } else {
                None
            }),
    {
        let cp = self.to_chunk_pos();
        let lx: i32 = self.x - cp.x * CHUNK_X as i32;
        let lz: i32 = self.z - cp.z * CHUNK_Z as i32;
        if lx < 0 || lx >= CHUNK_X as i32 || lz < 0 || lz >= CHUNK_Z as i32 {
            return None;
        }
        if self.y < 0 || self.y >= CHUNK_Y as i32 {
            return None;
        }
        Some(index(lx as usize, self.y as usize, lz as usize))
    }
}

impl ChunkPos {
    pub fn new(x: i32, z: i32) -> (r: ChunkPos)
        ensures
            r == (ChunkPos { x, z }),
    {
        ChunkPos { x, z }
    }

    /// A number that stands for this coordinate; it keys maps and sets of chunks.
    pub fn key(self) -> (r: u64)
        ensures
            r == chunk_key(self),
    {
        let high: u64 = (self.x as i64 + 0x8000_0000) as u64;
        let low: u64 = (self.z as i64 + 0x8000_0000) as u64;
        high * 0x1_0000_0000 + low
    }

    /// The coordinate that `key` stands for.
    pub fn from_key(key: u64) -> (r: ChunkPos)
        ensures
            r == chunk_of_key(key),
    {
        ChunkPos {
            x: ((key / 0x1_0000_0000) as i64 - 0x8000_0000) as i32,
            z: ((key % 0x1_0000_0000) as i64 - 0x8000_0000) as i32,
        }
    }

    /// The coordinate moved by `dx` and `dz`, wrapping around at the edge of the number range.
    pub fn offset(self, dx: i32, dz: i32) -> (r: ChunkPos)
        ensures
            r == moved(self, dx as int, dz as int),
    {
        ChunkPos { x: wrapping_sum(self.x, dx), z: wrapping_sum(self.z, dz) }
    }
}

/// The integer of 32 bits that is congruent to `v`.
pub open spec fn wrap_i32(v: int) -> i32 {
    if v > i32::MAX {
        (v - 0x1_0000_0000) as i32
    } else if v < i32::MIN {
        (v + 0x1_0000_0000) as i32
    } else {
        v as i32
    }
}

/// A chunk coordinate moved by a step.
pub open spec fn moved(pos: ChunkPos, dx: int, dz: int) -> ChunkPos {
    ChunkPos { x: wrap_i32(pos.x + dx), z: wrap_i32(pos.z + dz) }
}

/// The sum of two integers, wrapped into 32 bits.
pub fn wrapping_sum(a: i32, b: i32) -> (r: i32)
    ensures
        r == wrap_i32(a + b),
{
    a.wrapping_add(b)
}

impl Chunk {
    /// A chunk holds exactly its number of blocks.
    pub open spec fn wf(self) -> bool {
        self.blocks@.len() == CHUNK_SIZE
    }

    /// The block at a local coordinate.
    pub open spec fn block_at(self, lx: int, ly: int, lz: int) -> BlockID {
        self.blocks@[local_offset(lx, ly, lz)]
    }

    /// A chunk of air.
    pub fn empty() -> (r: Chunk)
        ensures
            r.wf(),
            forall|i: int| 0 <= i < CHUNK_SIZE ==> #[trigger] r.blocks@[i] == BlockID(0),
    {
        Chunk { blocks: vec![BlockID(BlockID::AIR); CHUNK_SIZE] }
    }

    pub fn get(&self, lx: usize, ly: usize, lz: usize) -> (r: BlockID)
        requires
            self.wf(),
            in_chunk(lx as int, ly as int, lz as int),
        ensures
            r == self.block_at(lx as int, ly as int, lz as int),
    {
        self.blocks[index(lx, ly, lz)]
    }

    pub fn set(&mut self, lx: usize, ly: usize, lz: usize, id: BlockID)
        requires
            old(self).wf(),
            in_chunk(lx as int, ly as int, lz as int),
        ensures
            final(self).wf(),
            final(self).blocks@ == old(self).blocks@.update(
                local_offset(lx as int, ly as int, lz as int),
                id,
            ),
    {
        let i: usize = index(lx, ly, lz);
        self.blocks.set(i, id);
    }
}

/// Index of a local coordinate in the block array. Layers of equal height are contiguous.
pub fn index(lx: usize, ly: usize, lz: usize) -> (r: usize)
    ensures
        r == (ly << 8usize) | (lz << 4usize) | lx,
        in_chunk(lx as int, ly as int, lz as int) ==> r == local_offset(
            lx as int,
            ly as int,
            lz as int,
        ),
{
    proof {
        if in_chunk(lx as int, ly as int, lz as int) {
            assert((ly << 8usize) | (lz << 4usize) | lx == ly * 256 + lz * 16 + lx)
                by (bit_vector)
                requires
                    lx < 16,
                    ly < 256,
                    lz < 16,
            ;
        }
    }
    (ly << 8) | (lz << 4) | lx
}

/// Every local coordinate has its own place, and every place lies in the array.
pub proof fn law_local_offset_is_injective(
    ax: int,
    ay: int,
    az: int,
    bx: int,
    by: int,
    bz: int,
)
    requires
        in_chunk(ax, ay, az),
        in_chunk(bx, by, bz),
    ensures
        0 <= local_offset(ax, ay, az) < CHUNK_SIZE,
        local_offset(ax, ay, az) == local_offset(bx, by, bz) ==> ax == bx && ay == by && az == bz,
{
}

/// A position is its chunk's corner plus the remainder of each horizontal coordinate.
pub proof fn law_position_is_chunk_plus_local(pos: Position)
    ensures
        pos.x == chunk_of(pos).x * 16 + pos.x as int % 16,
        pos.z == chunk_of(pos).z * 16 + pos.z as int % 16,
        in_chunk(pos.x as int % 16, 0, pos.z as int % 16),
{
}

/// Different chunks have different keys, and a key gives its chunk back.
pub proof fn law_chunk_key_round_trip(a: ChunkPos, b: ChunkPos)
    ensures
        chunk_of_key(chunk_key(a)) == a,
        chunk_key(a) == chunk_key(b) <==> a == b,
{
    lemma_chunk_key_inverse(a);
    lemma_chunk_key_inverse(b);
}

/// Every number is the key of the chunk that it stands for.
pub proof fn law_key_of_chunk_of_key(key: u64)
    ensures
        chunk_key(chunk_of_key(key)) == key,
{
    let high = key as int / 0x1_0000_0000;
    let low = key as int % 0x1_0000_0000;
    assert(0 <= high < 0x1_0000_0000);
    assert(0 <= low < 0x1_0000_0000);
    assert(high * 0x1_0000_0000 + low == key);
}

proof fn lemma_chunk_key_inverse(a: ChunkPos)
    ensures
        chunk_of_key(chunk_key(a)) == a,
{
    let high = a.x + 0x8000_0000;
    let low = a.z + 0x8000_0000;
    assert(high * 0x1_0000_0000 + low <= u64::MAX);
    assert((high * 0x1_0000_0000 + low) / 0x1_0000_0000 == high);
    assert((high * 0x1_0000_0000 + low) % 0x1_0000_0000 == low);
}

/// What is written is read back, and no other block changes.
pub proof fn law_chunk_set_then_get(
    before: Chunk,
    after: Chunk,
    x: int,
    y: int,
    z: int,
    id: BlockID,
    ox: int,
    oy: int,
    oz: int,
)
    requires
        before.wf(),
        in_chunk(x, y, z),
        in_chunk(ox, oy, oz),
        after.blocks@ == before.blocks@.update(local_offset(x, y, z), id),
    ensures
        after.block_at(ox, oy, oz) == (if (ox, oy, oz) == (x, y, z) {
            id
        } else {
            before.block_at(ox, oy, oz)
        }),
{
}

/// Blocks are stored layer by layer, and in a layer line by line: the next block of a line is the
/// next one stored, the next line begins sixteen blocks later, and the next layer after all lines.
pub proof fn law_blocks_are_stored_by_layer(lx: int, ly: int, lz: int)
    ensures
        local_offset(0, 0, 0) == 0,
        local_offset(lx + 1, ly, lz) == local_offset(lx, ly, lz) + 1,
        local_offset(lx, ly, lz + 1) == local_offset(lx, ly, lz) + CHUNK_X,
        local_offset(lx, ly + 1, lz) == local_offset(lx, ly, lz) + CHUNK_X * CHUNK_Z,
{
}

/// A chunk some steps away has its coordinates changed by as many, along each axis.
pub proof fn law_chunks_are_moved_by_steps(pos: ChunkPos, dx: int, dz: int)
    requires
        i32::MIN <= pos.x + dx <= i32::MAX,
        i32::MIN <= pos.z + dz <= i32::MAX,
    ensures
        moved(pos, dx, dz).x - pos.x == dx,
        moved(pos, dx, dz).z - pos.z == dz,
{
}

/// Blocks are in the same chunk exactly when both of their coordinates lie in the same stretch of
/// sixteen; the height does not matter.
pub proof fn law_chunks_are_sixteen_wide(pos: Position, q: ChunkPos)
    ensures
        chunk_of(pos) == q <==> q.x * 16 <= pos.x < q.x * 16 + 16 && q.z * 16 <= pos.z < q.z * 16
            + 16,
{
}

/// The world is as high as its chunks, and begins at the ground.
pub proof fn law_the_world_is_as_high_as_its_chunks(y: int)
    ensures
        is_world_height(y) <==> 0 <= y < CHUNK_Y,
        is_world_height(0) && is_world_height(CHUNK_Y - 1),
        !is_world_height(-1) && !is_world_height(CHUNK_Y as int),
{
}

} // verus!
