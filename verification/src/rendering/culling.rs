use vstd::prelude::*;
use crate::utils::constants::{CHUNK_SIZE, CHUNK_HEIGHT};
use crate::world::block::{Block, kind_is_solid, kind_is_transparent};
use crate::world::chunk::{Chunk, cell_index, in_chunk};

verus! {

/// The six axis-aligned face directions a block can expose, as the offset
/// of the neighbouring cell (which is also the face's outward normal):
/// +x, -x, +y, -y, +z, -z.
pub const FACE_DIRECTIONS: [(i32, i32, i32); 6] = [
    (1, 0, 0),
    (-1, 0, 0),
    (0, 1, 0),
    (0, -1, 0),
    (0, 0, 1),
    (0, 0, -1),
];

/// The neighbour offset of face direction `d` (0 to 5).
pub open spec fn face_dir(d: int) -> (int, int, int) {
    if d == 0 {
        (1, 0, 0)
    } else if d == 1 {
        (-1, 0, 0)
    } else if d == 2 {
        (0, 1, 0)
    } else if d == 3 {
        (0, -1, 0)
    } else if d == 4 {
        (0, 0, 1)
    } else {
        (0, 0, -1)
    }
}

/// Whether the face of `block` that looks at local cell `(x, y, z)` of a
/// chunk with cells `cells` is drawn: always when the cell lies outside the
/// chunk, else when the neighbour is not solid, or when both the neighbour
/// and `block` are transparent.
pub open spec fn face_visible(cells: Seq<Block>, block: Block, x: int, y: int, z: int) -> bool {
    if !in_chunk(x, y, z) {
        true
    } else {
        let n = cells[cell_index(x, y, z)];
        !kind_is_solid(n.kind) || (kind_is_transparent(n.kind) && kind_is_transparent(block.kind))
    }
}

/// Whether `block`'s face pointing at (x, y, z) should be drawn, given the
/// neighbour found there. Neighbours outside the chunk count as air, so
/// faces on the chunk border are always drawn.
pub fn is_face_visible(chunk: &Chunk, block: Block, x: i32, y: i32, z: i32) -> (r: bool)
    requires
        chunk.wf(),
    ensures
        r == face_visible(chunk.blocks@, block, x as int, y as int, z as int),
        (x < 0 || x >= 16 || y < 0 || y >= 256 || z < 0 || z >= 16) ==> r,
{
    let size: i32 = CHUNK_SIZE as i32;
    let height: i32 = CHUNK_HEIGHT as i32;
    if x < 0 || x >= size || y < 0 || y >= height || z < 0 || z >= size {
        return true;
    }
    proof {
        crate::world::chunk::lemma_cell_index_bijective(
            x as int,
            y as int,
            z as int,
            x as int,
            y as int,
            z as int,
        );
    }
    let neighbour = chunk.get_block(x as usize, y as usize, z as usize);
    !neighbour.is_solid() || (neighbour.is_transparent() && block.is_transparent())
}

/// Faces between two solid opaque blocks are never drawn, and a face of an
/// opaque block next to leaves is drawn only from the leaves' side.
pub proof fn lemma_opaque_neighbours_hide_faces(cells: Seq<Block>, block: Block, x: int, y: int, z: int)
    requires
        in_chunk(x, y, z),
        kind_is_solid(cells[cell_index(x, y, z)].kind),
        !kind_is_transparent(cells[cell_index(x, y, z)].kind) || !kind_is_transparent(block.kind),
    ensures
        !face_visible(cells, block, x, y, z),
{
}

/// Faces on the chunk border are always drawn: a face whose neighbouring
/// cell lies outside the 16 × 256 × 16 chunk is visible, whatever the block
/// and the cells are. Inside the chunk, a face next to a cell that is not
/// solid (air, water) is visible too.
pub proof fn lemma_border_and_open_faces_visible(cells: Seq<Block>, block: Block, x: int, y: int, z: int)
    ensures
        (x < 0 || x >= 16 || y < 0 || y >= 256 || z < 0 || z >= 16) ==> face_visible(cells, block, x, y, z),
        (0 <= x < 16 && 0 <= y < 256 && 0 <= z < 16 && (cells[y * 256 + z * 16 + x].kind
            == crate::world::block::BlockKind::Air || cells[y * 256 + z * 16 + x].kind
            == crate::world::block::BlockKind::Water)) ==> face_visible(cells, block, x, y, z),
{
}

} // verus!
