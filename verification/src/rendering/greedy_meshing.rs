use vstd::prelude::*;
use crate::utils::constants::{CHUNK_SIZE, CHUNK_HEIGHT, CHUNK_VOLUME};
use crate::world::block::{Block, BlockKind};
use crate::world::chunk::{Chunk, cell_index, in_chunk, index_x, index_y, index_z};
use crate::rendering::culling::{FACE_DIRECTIONS, face_dir, face_visible, is_face_visible};

verus! {

/// One unit square face of a block: the block's minimum corner in local
/// chunk coordinates, the face size (always 1 × 1), the outward normal and
/// the block kind.
#[derive(Debug, Clone, Copy)]
pub struct Quad {
    pub position: (i32, i32, i32),
    pub size: (i32, i32),
    pub normal: (i32, i32, i32),
    pub block_kind: BlockKind,
}

/// The quad of face direction `d` of the block at local `(x, y, z)`.
pub open spec fn face_quad(x: int, y: int, z: int, d: int, kind: BlockKind) -> Quad {
    let (dx, dy, dz) = face_dir(d);
    Quad {
        position: (x as i32, y as i32, z as i32),
        size: (1, 1),
        normal: (dx as i32, dy as i32, dz as i32),
        block_kind: kind,
    }
}

/// The visible faces among the first `d` face directions of the block at
/// array index `i`.
pub open spec fn face_quads(cells: Seq<Block>, i: int, d: nat) -> Seq<Quad>
    decreases d,
{
    if d == 0 {
        Seq::empty()
    } else {
        let (x, y, z) = (index_x(i), index_y(i), index_z(i));
        let (dx, dy, dz) = face_dir(d - 1);
        face_quads(cells, i, (d - 1) as nat) + if face_visible(cells, cells[i], x + dx, y + dy, z + dz) {
            seq![face_quad(x, y, z, d - 1, cells[i].kind)]
        } else {
            Seq::empty()
        }
    }
}

/// The quads of the block at index `i`: none for air, else its visible faces.
pub open spec fn block_quads(cells: Seq<Block>, i: int) -> Seq<Quad> {
    if cells[i].kind is Air {
        Seq::empty()
    } else {
        face_quads(cells, i, 6)
    }
}

/// The quads of the first `n` cells of the block array, in array order.
pub open spec fn chunk_quads(cells: Seq<Block>, n: nat) -> Seq<Quad>
    decreases n,
{
    if n == 0 {
        Seq::empty()
    } else {
        chunk_quads(cells, (n - 1) as nat) + block_quads(cells, n - 1)
    }
}

/// One quad per visible face of every non-air block, in array order and,
/// within a block, in the order of `FACE_DIRECTIONS` (faces are not merged).
pub fn generate_chunk_quads(chunk: &Chunk) -> (r: Vec<Quad>)
    requires
        chunk.wf(),
    ensures
        r@ == chunk_quads(chunk.blocks@, CHUNK_VOLUME as nat),
{
    let ghost cells = chunk.blocks@;
    let mut quads: Vec<Quad> = Vec::new();
    let size: i32 = CHUNK_SIZE as i32;
    let height: i32 = CHUNK_HEIGHT as i32;
    let mut y: i32 = 0;
    while y < height
        invariant
            chunk.wf(),
            cells == chunk.blocks@,
            size == 16,
            height == 256,
            0 <= y <= height,
            quads@ == chunk_quads(cells, (y * 256) as nat),
        decreases height - y,
    {
        let mut z: i32 = 0;
        while z < size
            invariant
                chunk.wf(),
                cells == chunk.blocks@,
                size == 16,
                height == 256,
                0 <= y < height,
                0 <= z <= size,
                quads@ == chunk_quads(cells, (y * 256 + z * 16) as nat),
            decreases size - z,
        {
            let mut x: i32 = 0;
            while x < size
                invariant
                    chunk.wf(),
                    cells == chunk.blocks@,
                    size == 16,
                    height == 256,
                    0 <= y < height,
                    0 <= z < size,
                    0 <= x <= size,
                    quads@ == chunk_quads(cells, (y * 256 + z * 16 + x) as nat),
                decreases size - x,
            {
                let ghost i = y * 256 + z * 16 + x;
                proof {
                    crate::world::chunk::lemma_cell_index_bijective(
                        x as int,
                        y as int,
                        z as int,
                        x as int,
                        y as int,
                        z as int,
                    );
                }
                let block = chunk.get_block(x as usize, y as usize, z as usize);
                let ghost before = quads@;
                if block.kind != BlockKind::Air {
                    let mut d: usize = 0;
                    while d < 6
                        invariant
                            chunk.wf(),
                            cells == chunk.blocks@,
                            0 <= x < 16,
                            0 <= y < 256,
                            0 <= z < 16,
                            i == cell_index(x as int, y as int, z as int),
                            0 <= i < CHUNK_VOLUME,
                            index_x(i) == x && index_y(i) == y && index_z(i) == z,
                            block == cells[i],
                            0 <= d <= 6,
                            quads@ == before + face_quads(cells, i, d as nat),
                        decreases 6 - d,
                    {
                        let (dx, dy, dz) = FACE_DIRECTIONS[d];
                        assert(face_dir(d as int) == (dx as int, dy as int, dz as int));
                        let ghost prev = quads@;
                        if is_face_visible(chunk, block, x + dx, y + dy, z + dz) {
                            quads.push(
                                Quad {
                                    position: (x, y, z),
                                    size: (1, 1),
                                    normal: (dx, dy, dz),
                                    block_kind: block.kind,
                                },
                            );
                            assert(quads@ =~= prev + seq![face_quad(x as int, y as int, z as int, d as int, block.kind)]);
                        }
                        assert(quads@ =~= before + face_quads(cells, i, (d + 1) as nat));
                        d = d + 1;
                    }
                }
                proof {
                    assert(chunk_quads(cells, (i + 1) as nat) == chunk_quads(cells, i as nat)
                        + block_quads(cells, i));
                    assert(quads@ =~= chunk_quads(cells, (i + 1) as nat));
                }
                x = x + 1;
            }
            z = z + 1;
        }
        y = y + 1;
    }
    quads
}

/// Every quad comes from a non-air block and has a unit size.
pub proof fn lemma_quads_are_unit_faces_of_blocks(cells: Seq<Block>, n: nat, k: int)
    requires
        n <= cells.len(),
        0 <= k < chunk_quads(cells, n).len(),
    ensures
        !(chunk_quads(cells, n)[k].block_kind is Air),
        chunk_quads(cells, n)[k].size == (1i32, 1i32),
    decreases n,
{
    if n > 0 {
        let prev = chunk_quads(cells, (n - 1) as nat);
        let last = block_quads(cells, n - 1);
        assert(chunk_quads(cells, n) == prev + last);
        if k < prev.len() {
            lemma_quads_are_unit_faces_of_blocks(cells, (n - 1) as nat, k);
        } else {
            lemma_face_quads_kind(cells, n - 1, 6, k - prev.len());
        }
    }
}

proof fn lemma_face_quads_kind(cells: Seq<Block>, i: int, d: nat, k: int)
    requires
        0 <= i < cells.len(),
        !(cells[i].kind is Air),
        0 <= k < face_quads(cells, i, d).len(),
    ensures
        face_quads(cells, i, d)[k].block_kind == cells[i].kind,
        face_quads(cells, i, d)[k].size == (1i32, 1i32),
    decreases d,
{
    if d > 0 {
        let prev = face_quads(cells, i, (d - 1) as nat);
        if k < prev.len() {
            lemma_face_quads_kind(cells, i, (d - 1) as nat, k);
        }
    }
}

proof fn lemma_face_quads_len(cells: Seq<Block>, i: int, d: nat)
    ensures
        face_quads(cells, i, d).len() <= d,
    decreases d,
{
    if d > 0 {
        lemma_face_quads_len(cells, i, (d - 1) as nat);
    }
}

/// A chunk yields at most six quads per cell.
pub proof fn lemma_chunk_quads_len(cells: Seq<Block>, n: nat)
    ensures
        chunk_quads(cells, n).len() <= 6 * n,
    decreases n,
{
    if n > 0 {
        lemma_chunk_quads_len(cells, (n - 1) as nat);
        lemma_face_quads_len(cells, n - 1, 6);
    }
}

/// How many times `q` occurs in `s`.
pub open spec fn occurrences(s: Seq<Quad>, q: Quad) -> nat
    decreases s.len(),
{
    if s.len() == 0 {
        0
    } else {
        occurrences(s.drop_last(), q) + if s.last() == q {
            1nat
        } else {
            0nat
        }
    }
}

proof fn lemma_occurrences_concat(a: Seq<Quad>, b: Seq<Quad>, q: Quad)
    ensures
        occurrences(a + b, q) == occurrences(a, q) + occurrences(b, q),
    decreases b.len(),
{
    if b.len() == 0 {
        assert(a + b =~= a);
    } else {
        assert((a + b).drop_last() =~= a + b.drop_last());
        assert((a + b).last() == b.last());
        lemma_occurrences_concat(a, b.drop_last(), q);
    }
}

/// Whether face `d` of the cell at local `(x, y, z)` is drawn: the cell
/// holds a block and the face is visible.
pub open spec fn face_drawn(cells: Seq<Block>, x: int, y: int, z: int, d: int) -> bool {
    let b = cells[cell_index(x, y, z)];
    let (dx, dy, dz) = face_dir(d);
    !(b.kind is Air) && face_visible(cells, b, x + dx, y + dy, z + dz)
}

proof fn lemma_face_dir_distinct(d: int, e: int)
    requires
        0 <= d < 6,
        0 <= e < 6,
        d != e,
    ensures
        ({
            let (a0, a1, a2) = face_dir(d);
            let (b0, b1, b2) = face_dir(e);
            (a0 as i32, a1 as i32, a2 as i32) != (b0 as i32, b1 as i32, b2 as i32)
        }),
{
}

proof fn lemma_occurrences_face_quads(cells: Seq<Block>, j: int, dd: nat, x: int, y: int, z: int, d: int)
    requires
        cells.len() == CHUNK_VOLUME,
        0 <= j < CHUNK_VOLUME,
        in_chunk(x, y, z),
        0 <= d < 6,
        dd <= 6,
    ensures
        occurrences(face_quads(cells, j, dd), face_quad(x, y, z, d, cells[cell_index(x, y, z)].kind))
            == if j == cell_index(x, y, z) && d < dd && face_visible(
            cells,
            cells[j],
            x + face_dir(d).0,
            y + face_dir(d).1,
            z + face_dir(d).2,
        ) {
            1nat
        } else {
            0nat
        },
    decreases dd,
{
    let i = cell_index(x, y, z);
    let q = face_quad(x, y, z, d, cells[i].kind);
    crate::world::chunk::lemma_cell_index_bijective(x, y, z, x, y, z);
    crate::world::chunk::lemma_index_compose(j);
    if dd == 0 {
        assert(face_quads(cells, j, 0) =~= Seq::<Quad>::empty());
    } else {
        lemma_occurrences_face_quads(cells, j, (dd - 1) as nat, x, y, z, d);
        let (xj, yj, zj) = (index_x(j), index_y(j), index_z(j));
        let (dx, dy, dz) = face_dir(dd - 1);
        let prev = face_quads(cells, j, (dd - 1) as nat);
        let tail = if face_visible(cells, cells[j], xj + dx, yj + dy, zj + dz) {
            seq![face_quad(xj, yj, zj, dd - 1, cells[j].kind)]
        } else {
            Seq::empty()
        };
        assert(face_quads(cells, j, dd) == prev + tail);
        lemma_occurrences_concat(prev, tail, q);
        assert(in_chunk(xj, yj, zj));
        assert(occurrences(Seq::<Quad>::empty(), q) == 0);
        if tail.len() == 1 {
            let t = face_quad(xj, yj, zj, dd - 1, cells[j].kind);
            assert(tail.drop_last() =~= Seq::<Quad>::empty());
            assert(tail.last() == t);
            assert(occurrences(tail, q) == if t == q { 1nat } else { 0nat });
            if t == q {
                assert(t.position == q.position);
                assert(xj as i32 == x as i32 && yj as i32 == y as i32 && zj as i32 == z as i32);
                assert(xj == x && yj == y && zj == z);
                assert(j == i);
                if dd - 1 != d {
                    lemma_face_dir_distinct(dd - 1, d);
                }
            } else {
                if j == i && d == dd - 1 {
                    assert(t == q);
                }
            }
        } else {
            assert(tail =~= Seq::<Quad>::empty());
            assert(occurrences(tail, q) == 0);
        }
    }
}

proof fn lemma_occurrences_chunk_quads(cells: Seq<Block>, n: nat, x: int, y: int, z: int, d: int)
    requires
        cells.len() == CHUNK_VOLUME,
        n <= CHUNK_VOLUME,
        in_chunk(x, y, z),
        0 <= d < 6,
    ensures
        occurrences(chunk_quads(cells, n), face_quad(x, y, z, d, cells[cell_index(x, y, z)].kind))
            == if cell_index(x, y, z) < n && face_drawn(cells, x, y, z, d) {
            1nat
        } else {
            0nat
        },
    decreases n,
{
    let i = cell_index(x, y, z);
    let q = face_quad(x, y, z, d, cells[i].kind);
    crate::world::chunk::lemma_cell_index_bijective(x, y, z, x, y, z);
    if n == 0 {
        assert(chunk_quads(cells, 0) =~= Seq::<Quad>::empty());
    } else {
        let j = n - 1;
        lemma_occurrences_chunk_quads(cells, (n - 1) as nat, x, y, z, d);
        lemma_occurrences_concat(chunk_quads(cells, (n - 1) as nat), block_quads(cells, j), q);
        if cells[j].kind is Air {
            assert(block_quads(cells, j) =~= Seq::<Quad>::empty());
        } else {
            lemma_occurrences_face_quads(cells, j, 6, x, y, z, d);
        }
    }
}

/// Every drawn face has exactly one quad: the quad of face `d` of the
/// block at local `(x, y, z)` occurs once among the chunk's quads when the
/// cell holds a block whose face `d` is visible, and not at all otherwise.
pub proof fn lemma_one_quad_per_drawn_face(cells: Seq<Block>, x: int, y: int, z: int, d: int)
    requires
        cells.len() == CHUNK_VOLUME,
        in_chunk(x, y, z),
        0 <= d < 6,
    ensures
        occurrences(
            chunk_quads(cells, CHUNK_VOLUME as nat),
            face_quad(x, y, z, d, cells[cell_index(x, y, z)].kind),
        ) == if face_drawn(cells, x, y, z, d) {
            1nat
        } else {
            0nat
        },
{
    crate::world::chunk::lemma_cell_index_bijective(x, y, z, x, y, z);
    lemma_occurrences_chunk_quads(cells, CHUNK_VOLUME as nat, x, y, z, d);
}

proof fn lemma_face_quads_member(cells: Seq<Block>, j: int, dd: nat, k: int) -> (e: int)
    requires
        cells.len() == CHUNK_VOLUME,
        0 <= j < CHUNK_VOLUME,
        dd <= 6,
        0 <= k < face_quads(cells, j, dd).len(),
    ensures
        0 <= e < dd,
        face_visible(
            cells,
            cells[j],
            index_x(j) + face_dir(e).0,
            index_y(j) + face_dir(e).1,
            index_z(j) + face_dir(e).2,
        ),
        face_quads(cells, j, dd)[k] == face_quad(index_x(j), index_y(j), index_z(j), e, cells[j].kind),
    decreases dd,
{
    let prev = face_quads(cells, j, (dd - 1) as nat);
    if k < prev.len() {
        lemma_face_quads_member(cells, j, (dd - 1) as nat, k)
    } else {
        (dd - 1) as int
    }
}

proof fn lemma_chunk_quads_member(cells: Seq<Block>, n: nat, k: int) -> (w: (int, int, int, int))
    requires
        cells.len() == CHUNK_VOLUME,
        n <= CHUNK_VOLUME,
        0 <= k < chunk_quads(cells, n).len(),
    ensures
        in_chunk(w.0, w.1, w.2),
        0 <= w.3 < 6,
        face_drawn(cells, w.0, w.1, w.2, w.3),
        chunk_quads(cells, n)[k] == face_quad(w.0, w.1, w.2, w.3, cells[cell_index(w.0, w.1, w.2)].kind),
    decreases n,
{
    let prev = chunk_quads(cells, (n - 1) as nat);
    let j = n - 1;
    assert(chunk_quads(cells, n) == prev + block_quads(cells, j));
    if k < prev.len() {
        lemma_chunk_quads_member(cells, (n - 1) as nat, k)
    } else {
        crate::world::chunk::lemma_index_compose(j);
        let e = lemma_face_quads_member(cells, j, 6, k - prev.len());
        (index_x(j), index_y(j), index_z(j), e)
    }
}

/// Every quad of a chunk is the quad of a drawn face: of face `w.3` of the
/// block at local `(w.0, w.1, w.2)`, which holds a block whose face in that
/// direction is visible.
pub proof fn lemma_every_quad_is_a_drawn_face(cells: Seq<Block>, k: int) -> (w: (int, int, int, int))
    requires
        cells.len() == CHUNK_VOLUME,
        0 <= k < chunk_quads(cells, CHUNK_VOLUME as nat).len(),
    ensures
        in_chunk(w.0, w.1, w.2),
        0 <= w.3 < 6,
        face_drawn(cells, w.0, w.1, w.2, w.3),
        chunk_quads(cells, CHUNK_VOLUME as nat)[k] == face_quad(
            w.0,
            w.1,
            w.2,
            w.3,
            cells[cell_index(w.0, w.1, w.2)].kind,
        ),
{
    lemma_chunk_quads_member(cells, CHUNK_VOLUME as nat, k)
}

/// Every block on the chunk border gets a quad for each face that looks
/// out of the chunk: for a non-air block at local `(x, y, z)` whose
/// neighbour in direction `d` lies outside the 16 × 256 × 16 chunk, the quad
/// of that face occurs exactly once among the chunk's quads.
pub proof fn lemma_border_faces_have_quads(cells: Seq<Block>, x: int, y: int, z: int, d: int)
    requires
        cells.len() == CHUNK_VOLUME,
        0 <= x < 16,
        0 <= y < 256,
        0 <= z < 16,
        0 <= d < 6,
        !(cells[y * 256 + z * 16 + x].kind is Air),
        ({
            let (dx, dy, dz) = face_dir(d);
            x + dx < 0 || x + dx >= 16 || y + dy < 0 || y + dy >= 256 || z + dz < 0 || z + dz >= 16
        }),
    ensures
        occurrences(
            chunk_quads(cells, CHUNK_VOLUME as nat),
            face_quad(x, y, z, d, cells[y * 256 + z * 16 + x].kind),
        ) == 1,
{
    let (dx, dy, dz) = face_dir(d);
    crate::rendering::culling::lemma_border_and_open_faces_visible(
        cells,
        cells[cell_index(x, y, z)],
        x + dx,
        y + dy,
        z + dz,
    );
    lemma_one_quad_per_drawn_face(cells, x, y, z, d);
}

} // verus!
