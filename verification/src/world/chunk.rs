use vstd::prelude::*;
use crate::utils::constants::{CHUNK_SIZE, CHUNK_HEIGHT, CHUNK_VOLUME};
use crate::world::block::Block;

verus! {

/// Integer chunk coordinates (chunk units, not blocks).
#[derive(Debug, Clone, Copy, PartialEq, Eq, Hash, Structural)]
pub struct ChunkPos {
    pub x: i32,
    pub y: i32,
    pub z: i32,
}

impl ChunkPos {
    pub fn new(x: i32, y: i32, z: i32) -> (r: ChunkPos)
        ensures
            r == (ChunkPos { x, y, z }),
    {
        ChunkPos { x, y, z }
    }
}

/// Position of local cell `(x, y, z)` in a chunk's block array: `y` is the
/// slowest axis, then `z`, then `x`.
pub open spec fn cell_index(x: int, y: int, z: int) -> int {
    y * (CHUNK_SIZE * CHUNK_SIZE) + z * CHUNK_SIZE + x
}

/// Whether `(x, y, z)` are local coordinates of a cell inside a chunk.
pub open spec fn in_chunk(x: int, y: int, z: int) -> bool {
    0 <= x < CHUNK_SIZE && 0 <= y < CHUNK_HEIGHT && 0 <= z < CHUNK_SIZE
}

/// The local x coordinate of the cell stored at index `i`.
pub open spec fn index_x(i: int) -> int {
    i % 16
}

/// The local z coordinate of the cell stored at index `i`.
pub open spec fn index_z(i: int) -> int {
    (i / 16) % 16
}

/// The local y coordinate of the cell stored at index `i`.
pub open spec fn index_y(i: int) -> int {
    i / 256
}

/// A column-major block store for one chunk, with a flag that says whether
/// its mesh must be rebuilt.
pub struct Chunk {
    pub position: ChunkPos,
    pub blocks: Vec<Block>,
    pub needs_remesh: bool,
}

impl Chunk {
    /// A chunk is well formed when it holds exactly one block per cell.
    pub open spec fn wf(&self) -> bool {
        self.blocks@.len() == CHUNK_VOLUME
    }

    /// A chunk at `position` with the given cells, marked for meshing.
    pub fn new(position: ChunkPos, blocks: Vec<Block>) -> (r: Chunk)
        requires
            blocks@.len() == CHUNK_VOLUME,
        ensures
            r.wf(),
            r.position == position,
            r.blocks@ == blocks@,
            r.needs_remesh,
    {
        Chunk { position, blocks, needs_remesh: true }
    }

    /// Index of local cell `(x, y, z)` in the block array.
    pub fn block_index(x: usize, y: usize, z: usize) -> (r: usize)
        requires
            cell_index(x as int, y as int, z as int) <= usize::MAX,
        ensures
            r == cell_index(x as int, y as int, z as int),
    {
        y * (CHUNK_SIZE * CHUNK_SIZE) + z * CHUNK_SIZE + x
    }

    /// The block at local cell `(x, y, z)`.
    pub fn get_block(&self, x: usize, y: usize, z: usize) -> (r: Block)
        requires
            self.wf(),
            cell_index(x as int, y as int, z as int) < CHUNK_VOLUME,
        ensures
            r == self.blocks@[cell_index(x as int, y as int, z as int)],
    {
        self.blocks[Self::block_index(x, y, z)]
    }

    /// Store `block` at local cell `(x, y, z)` and mark the chunk for meshing.
    pub fn set_block(&mut self, x: usize, y: usize, z: usize, block: Block)
        requires
            old(self).wf(),
            cell_index(x as int, y as int, z as int) < CHUNK_VOLUME,
        ensures
            final(self).wf(),
            final(self).blocks@ == old(self).blocks@.update(
                cell_index(x as int, y as int, z as int),
                block,
            ),
            final(self).position == old(self).position,
            final(self).needs_remesh,
    {
        let i = Self::block_index(x, y, z);
        self.blocks.set(i, block);
        self.needs_remesh = true;
    }
}

/// Cells inside a chunk have indices inside the block array, distinct cells
/// have distinct indices, and an index gives its cell back.
pub proof fn lemma_cell_index_bijective(x: int, y: int, z: int, x2: int, y2: int, z2: int)
    requires
        in_chunk(x, y, z),
        in_chunk(x2, y2, z2),
    ensures
        0 <= cell_index(x, y, z) < CHUNK_VOLUME,
        cell_index(x, y, z) == cell_index(x2, y2, z2) ==> x == x2 && y == y2 && z == z2,
        index_x(cell_index(x, y, z)) == x,
        index_y(cell_index(x, y, z)) == y,
        index_z(cell_index(x, y, z)) == z,
{
    lemma_index_decompose(x, y, z);
    lemma_index_decompose(x2, y2, z2);
}

proof fn lemma_index_decompose(x: int, y: int, z: int)
    requires
        in_chunk(x, y, z),
    ensures
        0 <= cell_index(x, y, z) < CHUNK_VOLUME,
        index_x(cell_index(x, y, z)) == x,
        index_y(cell_index(x, y, z)) == y,
        index_z(cell_index(x, y, z)) == z,
{
    let i = cell_index(x, y, z);
    assert(i == y * 256 + z * 16 + x);
    assert(0 <= i < 65536) by (nonlinear_arith)
        requires
            i == y * 256 + z * 16 + x,
            0 <= x < 16,
            0 <= y < 256,
            0 <= z < 16,
    ;
    assert(i % 16 == x && (i / 16) % 16 == z && i / 256 == y) by (nonlinear_arith)
        requires
            i == y * 256 + z * 16 + x,
            0 <= x < 16,
            0 <= y < 256,
            0 <= z < 16,
    ;
}

/// Every index of the block array is the index of the cell it decomposes into.
pub proof fn lemma_index_compose(i: int)
    requires
        0 <= i < CHUNK_VOLUME,
    ensures
        in_chunk(index_x(i), index_y(i), index_z(i)),
        cell_index(index_x(i), index_y(i), index_z(i)) == i,
{
    assert(0 <= i % 16 < 16 && 0 <= (i / 16) % 16 < 16 && 0 <= i / 256 < 256 && (i / 256) * 256 + ((
    i / 16) % 16) * 16 + i % 16 == i) by (nonlinear_arith)
        requires
            0 <= i < 65536,
    ;
}

/// Reading a cell after writing it gives the written block; every other
/// cell, the position and the cell count are unchanged.
pub proof fn lemma_get_after_set(
    before: Chunk,
    after: Chunk,
    x: int,
    y: int,
    z: int,
    x2: int,
    y2: int,
    z2: int,
    block: Block,
)
    requires
        before.wf(),
        in_chunk(x, y, z),
        in_chunk(x2, y2, z2),
        after.blocks@ == before.blocks@.update(cell_index(x, y, z), block),
    ensures
        after.blocks@[cell_index(x, y, z)] == block,
        !(x == x2 && y == y2 && z == z2) ==> after.blocks@[cell_index(x2, y2, z2)]
            == before.blocks@[cell_index(x2, y2, z2)],
        after.wf(),
{
    lemma_cell_index_bijective(x, y, z, x2, y2, z2);
}

} // verus!
