//! Chunk assembly: the terrain cells of a chunk, then the trees of the
//! columns around it, each tree block placed only where it falls inside
//! the chunk on an air cell.

use vstd::prelude::*;
use crate::utils::constants::{CHUNK_SIZE, CHUNK_HEIGHT, CHUNK_VOLUME};
use crate::world::block::{Block, BlockKind};
use crate::world::chunk::{Chunk, ChunkPos, cell_index, in_chunk};
use crate::world::tree::{
    pine_trunk, TreeBlock, TreeBlocks, oak_tree, oak_tree_blocks, pine_tree, pine_tree_blocks, only_wood_and_leaves,
    lemma_trees_are_wood_and_leaves,
};

verus! {

/// Columns this many blocks beyond the chunk border may still grow trees
/// whose crowns reach into the chunk.
pub const TREE_BORDER: i32 = 5;

/// A column selected for a tree, with what the height and biome maps say of
/// it: the surface height, whether mountains dominate the biome mix
/// (weight above one half), and whether hills outweigh plains.
#[derive(Debug, Clone, Copy)]
pub struct TreeSite {
    pub wx: i32,
    pub wz: i32,
    pub surface_y: i32,
    pub mountains_dominate: bool,
    pub hills_over_plains: bool,
}

/// The hash of a tree column that picks the tree's kind and height: the
/// absolute value of `wx * 1234567 ^ wz * 7654321` (wrapping products).
pub open spec fn site_hash(wx: i32, wz: i32) -> u32 {
    let v = vstd::wrapping::i32_specs::wrapping_mul(wx, 1234567) ^ vstd::wrapping::i32_specs::wrapping_mul(
        wz,
        7654321,
    );
    if v >= 0 {
        v as u32
    } else {
        (-(v as int)) as u32
    }
}

/// The hash of tree column `(wx, wz)`.
pub fn tree_site_hash(wx: i32, wz: i32) -> (r: u32)
    ensures
        r == site_hash(wx, wz),
{
    let v: i32 = wx.wrapping_mul(1234567) ^ wz.wrapping_mul(7654321);
    if v >= 0 {
        v as u32
    } else {
        (-(v as i64)) as u32
    }
}

/// The tree a site grows: a pine of height 8–12 where mountains dominate;
/// where hills outweigh plains an oak of height 5–7 for even hashes and a
/// pine of height 7–10 for odd ones; elsewhere an oak of height 4–6.
pub open spec fn site_tree(hash: u32, mountains: bool, hills: bool) -> Seq<TreeBlock> {
    if mountains {
        pine_tree(8 + hash % 5)
    } else if hills {
        if hash % 2 == 0 {
            oak_tree(5 + hash % 3)
        } else {
            pine_tree(7 + hash % 4)
        }
    } else {
        oak_tree(4 + hash % 3)
    }
}

/// The tree of a site with the given hash and biome flags.
pub fn choose_tree(hash: u32, mountains_dominate: bool, hills_over_plains: bool) -> (r: TreeBlocks)
    ensures
        r@ == site_tree(hash, mountains_dominate, hills_over_plains),
{
    if mountains_dominate {
        let trunk_height: i32 = 8 + (hash % 5) as i32;
        pine_tree_blocks(trunk_height)
    } else if hills_over_plains {
        if hash % 2 == 0 {
            let trunk_height: i32 = 5 + (hash % 3) as i32;
            oak_tree_blocks(trunk_height)
        } else {
            let trunk_height: i32 = 7 + (hash % 4) as i32;
            pine_tree_blocks(trunk_height)
        }
    } else {
        let trunk_height: i32 = 4 + (hash % 3) as i32;
        oak_tree_blocks(trunk_height)
    }
}

/// Whether a tree may grow on a surface at height `s`: above the beach
/// (over 65) and not above 190.
pub open spec fn surface_grows_tree(s: int) -> bool {
    !(s <= 65 || s > 190)
}

/// The cells after placing tree block `b` of a tree whose trunk base is at
/// world `(ox, oy, oz)` into a chunk whose minimum corner is world
/// `(bx, by, bz)`: the block replaces the cell it falls on when that cell
/// is inside the chunk and holds air; otherwise nothing changes.
pub open spec fn place_block(
    cells: Seq<Block>,
    bx: int,
    by: int,
    bz: int,
    ox: int,
    oy: int,
    oz: int,
    b: TreeBlock,
) -> Seq<Block> {
    let lx = ox + b.0 - bx;
    let ly = oy + b.1 - by;
    let lz = oz + b.2 - bz;
    if in_chunk(lx, ly, lz) && cells[cell_index(lx, ly, lz)].kind is Air {
        cells.update(cell_index(lx, ly, lz), Block { kind: b.3 })
    } else {
        cells
    }
}

/// The cells after placing the first `n` blocks of a tree, in order.
pub open spec fn place_tree(
    cells: Seq<Block>,
    bx: int,
    by: int,
    bz: int,
    ox: int,
    oy: int,
    oz: int,
    blocks: Seq<TreeBlock>,
    n: nat,
) -> Seq<Block>
    decreases n,
{
    if n == 0 {
        cells
    } else {
        place_block(
            place_tree(cells, bx, by, bz, ox, oy, oz, blocks, (n - 1) as nat),
            bx,
            by,
            bz,
            ox,
            oy,
            oz,
            blocks[n - 1],
        )
    }
}

/// The cells after growing the tree of `site` (if its surface allows one)
/// in the chunk with minimum corner `(bx, by, bz)`; the trunk stands on the
/// cell above the surface.
pub open spec fn grow_site(cells: Seq<Block>, bx: int, by: int, bz: int, site: TreeSite) -> Seq<Block> {
    if surface_grows_tree(site.surface_y as int) {
        let tree = site_tree(
            site_hash(site.wx, site.wz),
            site.mountains_dominate,
            site.hills_over_plains,
        );
        place_tree(
            cells,
            bx,
            by,
            bz,
            site.wx as int,
            site.surface_y + 1,
            site.wz as int,
            tree,
            tree.len(),
        )
    } else {
        cells
    }
}

/// The cells after growing the trees of the first `n` sites, in order.
pub open spec fn grow_sites(cells: Seq<Block>, bx: int, by: int, bz: int, sites: Seq<TreeSite>, n: nat) -> Seq<
    Block,
>
    decreases n,
{
    if n == 0 {
        cells
    } else {
        grow_site(grow_sites(cells, bx, by, bz, sites, (n - 1) as nat), bx, by, bz, sites[n - 1])
    }
}

/// Whether the world coordinates of the minimum corner of a chunk are
/// representable as `i32`.
pub open spec fn chunk_pos_in_range(p: ChunkPos) -> bool {
    &&& i32::MIN <= p.x * CHUNK_SIZE <= i32::MAX
    &&& i32::MIN <= p.y * CHUNK_HEIGHT <= i32::MAX
    &&& i32::MIN <= p.z * CHUNK_SIZE <= i32::MAX
}

/// The world coordinates of the minimum corner of a chunk.
pub open spec fn chunk_origin(p: ChunkPos) -> (int, int, int) {
    (p.x * CHUNK_SIZE, p.y * CHUNK_HEIGHT, p.z * CHUNK_SIZE)
}

/// Place the blocks of one tree, in order, keeping every cell that is not
/// air and ignoring blocks outside the chunk.
fn place_tree_blocks(
    chunk: &mut Chunk,
    bx: i32,
    by: i32,
    bz: i32,
    ox: i32,
    oy: i32,
    oz: i32,
    tree: &TreeBlocks,
)
    requires
        old(chunk).wf(),
    ensures
        final(chunk).wf(),
        final(chunk).position == old(chunk).position,
        final(chunk).blocks@ == place_tree(
            old(chunk).blocks@,
            bx as int,
            by as int,
            bz as int,
            ox as int,
            oy as int,
            oz as int,
            tree@,
            tree@.len(),
        ),
        final(chunk).needs_remesh || final(chunk).needs_remesh == old(chunk).needs_remesh,
{
    let ghost start = chunk.blocks@;
    let cs: i32 = CHUNK_SIZE as i32;
    let ch: i32 = CHUNK_HEIGHT as i32;
    let mut k: usize = 0;
    while k < tree.len()
        invariant
            chunk.wf(),
            chunk.position == old(chunk).position,
            chunk.needs_remesh || chunk.needs_remesh == old(chunk).needs_remesh,
            cs == 16,
            ch == 256,
            0 <= k <= tree@.len(),
            start == old(chunk).blocks@,
            chunk.blocks@ == place_tree(
                start,
                bx as int,
                by as int,
                bz as int,
                ox as int,
                oy as int,
                oz as int,
                tree@,
                k as nat,
            ),
        decreases tree@.len() - k,
    {
        let (dx, dy, dz, kind) = tree[k];
        let ghost b = tree@[k as int];
        assert(b == (dx, dy, dz, kind));
        let lx2: i64 = ox as i64 + dx as i64 - bx as i64;
        let ly2: i64 = oy as i64 + dy as i64 - by as i64;
        let lz2: i64 = oz as i64 + dz as i64 - bz as i64;
        if !(lx2 < 0 || lx2 >= cs as i64 || ly2 < 0 || ly2 >= ch as i64 || lz2 < 0 || lz2 >= cs as i64) {
            proof {
                crate::world::chunk::lemma_cell_index_bijective(
                    lx2 as int,
                    ly2 as int,
                    lz2 as int,
                    lx2 as int,
                    ly2 as int,
                    lz2 as int,
                );
            }
            let existing = chunk.get_block(lx2 as usize, ly2 as usize, lz2 as usize);
            if existing.kind == BlockKind::Air {
                chunk.set_block(lx2 as usize, ly2 as usize, lz2 as usize, Block { kind });
            }
        }
        k = k + 1;
    }
}

/// Assemble the chunk at `chunk_pos` from its terrain cells (`terrain[i]`
/// is the terrain block of cell `i`) and the tree sites of its border
/// region, in order. Trees only fill air cells inside the chunk.
pub fn generate_chunk(chunk_pos: ChunkPos, terrain: Vec<Block>, sites: &Vec<TreeSite>) -> (r: Chunk)
    requires
        terrain@.len() == CHUNK_VOLUME,
        chunk_pos_in_range(chunk_pos),
    ensures
        r.wf(),
        r.position == chunk_pos,
        r.needs_remesh,
        r.blocks@ == grow_sites(
            terrain@,
            16 * chunk_pos.x,
            256 * chunk_pos.y,
            16 * chunk_pos.z,
            sites@,
            sites@.len(),
        ),
{
    let base_x: i32 = chunk_pos.x * CHUNK_SIZE as i32;
    let base_y: i32 = chunk_pos.y * CHUNK_HEIGHT as i32;
    let base_z: i32 = chunk_pos.z * CHUNK_SIZE as i32;
    let ghost bx = base_x as int;
    let ghost by = base_y as int;
    let ghost bz = base_z as int;
    let ghost cells0 = terrain@;
    let mut chunk = Chunk::new(chunk_pos, terrain);

    let mut s: usize = 0;
    while s < sites.len()
        invariant
            chunk.wf(),
            chunk.position == chunk_pos,
            chunk.needs_remesh,
            chunk_pos_in_range(chunk_pos),
            base_x == chunk_origin(chunk_pos).0,
            base_y == chunk_origin(chunk_pos).1,
            base_z == chunk_origin(chunk_pos).2,
            bx == base_x && by == base_y && bz == base_z,
            0 <= s <= sites@.len(),
            chunk.blocks@ == grow_sites(cells0, bx, by, bz, sites@, s as nat),
        decreases sites@.len() - s,
    {
        let site = sites[s];
        if !(site.surface_y <= 65 || site.surface_y > 190) {
            let wx = site.wx;
            let wz = site.wz;
            let trunk_base_y: i32 = site.surface_y + 1;
            let hash: u32 = tree_site_hash(wx, wz);
            let tree_blocks = choose_tree(hash, site.mountains_dominate, site.hills_over_plains);
            place_tree_blocks(&mut chunk, base_x, base_y, base_z, wx, trunk_base_y, wz, &tree_blocks);
        }
        s = s + 1;
    }
    chunk
}

/// Number of columns, along each horizontal axis, whose trees are
/// considered for one chunk.
pub open spec fn border_span() -> int {
    CHUNK_SIZE + 2 * TREE_BORDER
}

/// Column `k` of the tree border region of chunk `p`, in the order rows of
/// constant z from the lowest z, each row from the lowest x.
pub open spec fn border_column(p: ChunkPos, k: int) -> (i32, i32) {
    let lz = k / 26 - 5;
    let lx = k % 26 - 5;
    ((p.x * 16 + lx) as i32, (p.z * 16 + lz) as i32)
}

/// The world columns `(wx, wz)` whose trees can reach chunk `p`: every
/// column within `TREE_BORDER` blocks of the chunk, row by row.
pub fn tree_columns(chunk_pos: ChunkPos) -> (r: Vec<(i32, i32)>)
    requires
        i32::MIN + 5 <= chunk_pos.x * 16,
        chunk_pos.x * 16 + 21 <= i32::MAX,
        i32::MIN + 5 <= chunk_pos.z * 16,
        chunk_pos.z * 16 + 21 <= i32::MAX,
    ensures
        r@.len() == 676,
        forall|k: int| 0 <= k < 676 ==> #[trigger] r@[k] == border_column(chunk_pos, k),
{
    let base_x: i32 = chunk_pos.x * CHUNK_SIZE as i32;
    let base_z: i32 = chunk_pos.z * CHUNK_SIZE as i32;
    let border: i32 = TREE_BORDER;
    let cs: i32 = CHUNK_SIZE as i32;
    let mut cols: Vec<(i32, i32)> = Vec::new();
    let mut lz: i32 = -border;
    while lz < cs + border
        invariant
            border == 5,
            cs == 16,
            base_x == chunk_pos.x * 16,
            base_z == chunk_pos.z * 16,
            i32::MIN + 5 <= base_x,
            base_x + 21 <= i32::MAX,
            i32::MIN + 5 <= base_z,
            base_z + 21 <= i32::MAX,
            -5 <= lz <= 21,
            cols@.len() == (lz + 5) * 26,
            forall|k: int| 0 <= k < cols@.len() ==> #[trigger] cols@[k] == border_column(chunk_pos, k),
        decreases 21 - lz,
    {
        let mut lx: i32 = -border;
        while lx < cs + border
            invariant
                border == 5,
                cs == 16,
                base_x == chunk_pos.x * 16,
                base_z == chunk_pos.z * 16,
                i32::MIN + 5 <= base_x,
                base_x + 21 <= i32::MAX,
                i32::MIN + 5 <= base_z,
                base_z + 21 <= i32::MAX,
                -5 <= lz < 21,
                -5 <= lx <= 21,
                cols@.len() == (lz + 5) * 26 + lx + 5,
                forall|k: int| 0 <= k < cols@.len() ==> #[trigger] cols@[k] == border_column(chunk_pos, k),
            decreases 21 - lx,
        {
            let ghost k = cols@.len() as int;
            proof {
                assert(k / 26 == lz + 5 && k % 26 == lx + 5) by (nonlinear_arith)
                    requires
                        k == (lz + 5) * 26 + lx + 5,
                        -5 <= lx < 21,
                ;
            }
            cols.push((base_x + lx, base_z + lz));
            lx = lx + 1;
        }
        lz = lz + 1;
    }
    cols
}

proof fn lemma_place_block_keeps_solid(
    cells: Seq<Block>,
    bx: int,
    by: int,
    bz: int,
    ox: int,
    oy: int,
    oz: int,
    b: TreeBlock,
)
    requires
        cells.len() == CHUNK_VOLUME,
    ensures
        place_block(cells, bx, by, bz, ox, oy, oz, b).len() == CHUNK_VOLUME,
        forall|i: int|
            0 <= i < CHUNK_VOLUME && !(cells[i].kind is Air) ==> #[trigger] place_block(
                cells,
                bx,
                by,
                bz,
                ox,
                oy,
                oz,
                b,
            )[i] == cells[i],
{
    let lx = ox + b.0 - bx;
    let ly = oy + b.1 - by;
    let lz = oz + b.2 - bz;
    if in_chunk(lx, ly, lz) {
        crate::world::chunk::lemma_cell_index_bijective(lx, ly, lz, lx, ly, lz);
    }
}

proof fn lemma_place_tree_keeps_solid(
    cells: Seq<Block>,
    bx: int,
    by: int,
    bz: int,
    ox: int,
    oy: int,
    oz: int,
    blocks: Seq<TreeBlock>,
    n: nat,
)
    requires
        cells.len() == CHUNK_VOLUME,
        n <= blocks.len(),
    ensures
        place_tree(cells, bx, by, bz, ox, oy, oz, blocks, n).len() == CHUNK_VOLUME,
        forall|i: int|
            0 <= i < CHUNK_VOLUME && !(cells[i].kind is Air) ==> #[trigger] place_tree(
                cells,
                bx,
                by,
                bz,
                ox,
                oy,
                oz,
                blocks,
                n,
            )[i] == cells[i],
    decreases n,
{
    if n > 0 {
        lemma_place_tree_keeps_solid(cells, bx, by, bz, ox, oy, oz, blocks, (n - 1) as nat);
        let prev = place_tree(cells, bx, by, bz, ox, oy, oz, blocks, (n - 1) as nat);
        lemma_place_block_keeps_solid(prev, bx, by, bz, ox, oy, oz, blocks[n - 1]);
        assert forall|i: int| 0 <= i < CHUNK_VOLUME && !(cells[i].kind is Air) implies #[trigger] place_tree(
            cells,
            bx,
            by,
            bz,
            ox,
            oy,
            oz,
            blocks,
            n,
        )[i] == cells[i] by {
            assert(prev[i] == cells[i]);
        }
    }
}

/// Trees only ever fill air: every cell of the terrain that is not air is
/// left as it is by growing the trees of any list of sites, and the chunk
/// keeps one block per cell.
pub proof fn lemma_trees_only_fill_air(
    cells: Seq<Block>,
    bx: int,
    by: int,
    bz: int,
    sites: Seq<TreeSite>,
    n: nat,
    i: int,
)
    requires
        cells.len() == CHUNK_VOLUME,
        n <= sites.len(),
        0 <= i < CHUNK_VOLUME,
    ensures
        grow_sites(cells, bx, by, bz, sites, n).len() == CHUNK_VOLUME,
        !(cells[i].kind is Air) ==> grow_sites(cells, bx, by, bz, sites, n)[i] == cells[i],
    decreases n,
{
    if n > 0 {
        lemma_trees_only_fill_air(cells, bx, by, bz, sites, (n - 1) as nat, i);
        let prev = grow_sites(cells, bx, by, bz, sites, (n - 1) as nat);
        let site = sites[n - 1];
        if surface_grows_tree(site.surface_y as int) {
            let tree = site_tree(
                site_hash(site.wx, site.wz),
                site.mountains_dominate,
                site.hills_over_plains,
            );
            lemma_place_tree_keeps_solid(
                prev,
                bx,
                by,
                bz,
                site.wx as int,
                site.surface_y + 1,
                site.wz as int,
                tree,
                tree.len(),
            );
        }
    }
}

/// Sites whose surface is too low (beach) or too high carry no tree.
pub proof fn lemma_barren_sites_change_nothing(cells: Seq<Block>, bx: int, by: int, bz: int, site: TreeSite)
    requires
        site.surface_y <= 65 || site.surface_y > 190,
    ensures
        grow_site(cells, bx, by, bz, site) == cells,
{
}

/// Whether cell `i` of `after` is cell `i` of `before` or a wood or leaf
/// block.
pub open spec fn kept_or_tree(before: Seq<Block>, after: Seq<Block>, i: int) -> bool {
    after[i] == before[i] || after[i].kind == BlockKind::Wood || after[i].kind == BlockKind::Leaves
}

proof fn lemma_place_tree_kept_or_tree(
    cells: Seq<Block>,
    bx: int,
    by: int,
    bz: int,
    ox: int,
    oy: int,
    oz: int,
    blocks: Seq<TreeBlock>,
    n: nat,
    i: int,
)
    requires
        cells.len() == CHUNK_VOLUME,
        n <= blocks.len(),
        0 <= i < CHUNK_VOLUME,
        only_wood_and_leaves(blocks),
    ensures
        kept_or_tree(cells, place_tree(cells, bx, by, bz, ox, oy, oz, blocks, n), i),
    decreases n,
{
    if n > 0 {
        lemma_place_tree_kept_or_tree(cells, bx, by, bz, ox, oy, oz, blocks, (n - 1) as nat, i);
        lemma_place_tree_keeps_solid(cells, bx, by, bz, ox, oy, oz, blocks, (n - 1) as nat);
        let prev = place_tree(cells, bx, by, bz, ox, oy, oz, blocks, (n - 1) as nat);
        let b = blocks[n - 1];
        assert(b.3 == BlockKind::Wood || b.3 == BlockKind::Leaves);
        let lx = ox + b.0 - bx;
        let ly = oy + b.1 - by;
        let lz = oz + b.2 - bz;
        if in_chunk(lx, ly, lz) {
            crate::world::chunk::lemma_cell_index_bijective(lx, ly, lz, lx, ly, lz);
        }
    }
}

proof fn lemma_grow_sites_kept_or_tree(
    cells: Seq<Block>,
    bx: int,
    by: int,
    bz: int,
    sites: Seq<TreeSite>,
    n: nat,
    i: int,
)
    requires
        cells.len() == CHUNK_VOLUME,
        n <= sites.len(),
        0 <= i < CHUNK_VOLUME,
    ensures
        kept_or_tree(cells, grow_sites(cells, bx, by, bz, sites, n), i),
    decreases n,
{
    if n > 0 {
        lemma_grow_sites_kept_or_tree(cells, bx, by, bz, sites, (n - 1) as nat, i);
        lemma_trees_only_fill_air(cells, bx, by, bz, sites, (n - 1) as nat, i);
        let prev = grow_sites(cells, bx, by, bz, sites, (n - 1) as nat);
        let site = sites[n - 1];
        if surface_grows_tree(site.surface_y as int) {
            let hash = site_hash(site.wx, site.wz);
            let tree = site_tree(hash, site.mountains_dominate, site.hills_over_plains);
            lemma_trees_are_wood_and_leaves(8 + hash % 5);
            lemma_trees_are_wood_and_leaves(5 + hash % 3);
            lemma_trees_are_wood_and_leaves(7 + hash % 4);
            lemma_trees_are_wood_and_leaves(4 + hash % 3);
            assert(only_wood_and_leaves(tree));
            lemma_place_tree_kept_or_tree(
                prev,
                bx,
                by,
                bz,
                site.wx as int,
                site.surface_y + 1,
                site.wz as int,
                tree,
                tree.len(),
                i,
            );
        }
    }
}

/// Cells the terrain left as air end as air, wood or leaves once the trees
/// of any list of sites have grown; every other cell keeps its terrain
/// block.
pub proof fn lemma_air_cells_take_only_trees(
    cells: Seq<Block>,
    bx: int,
    by: int,
    bz: int,
    sites: Seq<TreeSite>,
    n: nat,
    i: int,
)
    requires
        cells.len() == CHUNK_VOLUME,
        n <= sites.len(),
        0 <= i < CHUNK_VOLUME,
    ensures
        ({
            let k = grow_sites(cells, bx, by, bz, sites, n)[i].kind;
            cells[i].kind is Air ==> (k == BlockKind::Air || k == BlockKind::Wood || k
                == BlockKind::Leaves)
        }),
        !(cells[i].kind is Air) ==> grow_sites(cells, bx, by, bz, sites, n)[i] == cells[i],
{
    lemma_grow_sites_kept_or_tree(cells, bx, by, bz, sites, n, i);
    lemma_trees_only_fill_air(cells, bx, by, bz, sites, n, i);
}

/// The local cell of the chunk at `p` that the world cell `(wx, wy, wz)`
/// falls on: the world cell minus the chunk's minimum corner
/// `(16 * p.x, 256 * p.y, 16 * p.z)`.
pub open spec fn local_cell(p: ChunkPos, wx: int, wy: int, wz: int) -> (int, int, int) {
    (wx - 16 * p.x, wy - 256 * p.y, wz - 16 * p.z)
}

proof fn lemma_site_tree_wood_and_leaves(site: TreeSite)
    ensures
        only_wood_and_leaves(
            site_tree(site_hash(site.wx, site.wz), site.mountains_dominate, site.hills_over_plains),
        ),
{
    let hash = site_hash(site.wx, site.wz);
    lemma_trees_are_wood_and_leaves(8 + hash % 5);
    lemma_trees_are_wood_and_leaves(5 + hash % 3);
    lemma_trees_are_wood_and_leaves(7 + hash % 4);
    lemma_trees_are_wood_and_leaves(4 + hash % 3);
}

proof fn lemma_place_tree_fills_block_cell(
    cells: Seq<Block>,
    bx: int,
    by: int,
    bz: int,
    ox: int,
    oy: int,
    oz: int,
    blocks: Seq<TreeBlock>,
    n: nat,
    k: int,
)
    requires
        cells.len() == CHUNK_VOLUME,
        n <= blocks.len(),
        0 <= k < n,
        only_wood_and_leaves(blocks),
        in_chunk(ox + blocks[k].0 - bx, oy + blocks[k].1 - by, oz + blocks[k].2 - bz),
    ensures
        ({
            let c = cell_index(ox + blocks[k].0 - bx, oy + blocks[k].1 - by, oz + blocks[k].2 - bz);
            let after = place_tree(cells, bx, by, bz, ox, oy, oz, blocks, n);
            &&& !(after[c].kind is Air)
            &&& (cells[c].kind is Air && (forall|j: int| 0 <= j < k ==> (ox + blocks[j].0 - bx, oy
                + blocks[j].1 - by, oz + blocks[j].2 - bz) != (ox + blocks[k].0 - bx, oy + blocks[k].1
                - by, oz + blocks[k].2 - bz))) ==> after[c].kind == blocks[k].3
        }),
    decreases n,
{
    let (lx, ly, lz) = (ox + blocks[k].0 - bx, oy + blocks[k].1 - by, oz + blocks[k].2 - bz);
    let c = cell_index(lx, ly, lz);
    crate::world::chunk::lemma_cell_index_bijective(lx, ly, lz, lx, ly, lz);
    lemma_place_tree_keeps_solid(cells, bx, by, bz, ox, oy, oz, blocks, (n - 1) as nat);
    let prev = place_tree(cells, bx, by, bz, ox, oy, oz, blocks, (n - 1) as nat);
    if k == n - 1 {
        assert(blocks[k].3 == BlockKind::Wood || blocks[k].3 == BlockKind::Leaves);
        if (cells[c].kind is Air && (forall|j: int| 0 <= j < k ==> (ox + blocks[j].0 - bx, oy
            + blocks[j].1 - by, oz + blocks[j].2 - bz) != (lx, ly, lz))) {
            lemma_place_tree_untouched(cells, bx, by, bz, ox, oy, oz, blocks, (n - 1) as nat, lx, ly, lz);
        }
    } else {
        lemma_place_tree_fills_block_cell(cells, bx, by, bz, ox, oy, oz, blocks, (n - 1) as nat, k);
        lemma_place_block_keeps_solid(prev, bx, by, bz, ox, oy, oz, blocks[n - 1]);
    }
}

proof fn lemma_place_tree_untouched(
    cells: Seq<Block>,
    bx: int,
    by: int,
    bz: int,
    ox: int,
    oy: int,
    oz: int,
    blocks: Seq<TreeBlock>,
    n: nat,
    lx: int,
    ly: int,
    lz: int,
)
    requires
        cells.len() == CHUNK_VOLUME,
        n <= blocks.len(),
        in_chunk(lx, ly, lz),
        forall|j: int| 0 <= j < n ==> (ox + blocks[j].0 - bx, oy + blocks[j].1 - by, oz + blocks[j].2
            - bz) != (lx, ly, lz),
    ensures
        place_tree(cells, bx, by, bz, ox, oy, oz, blocks, n)[cell_index(lx, ly, lz)] == cells[cell_index(
            lx,
            ly,
            lz,
        )],
        place_tree(cells, bx, by, bz, ox, oy, oz, blocks, n).len() == CHUNK_VOLUME,
    decreases n,
{
    if n > 0 {
        lemma_place_tree_untouched(cells, bx, by, bz, ox, oy, oz, blocks, (n - 1) as nat, lx, ly, lz);
        let b = blocks[n - 1];
        let (mx, my, mz) = (ox + b.0 - bx, oy + b.1 - by, oz + b.2 - bz);
        if in_chunk(mx, my, mz) {
            crate::world::chunk::lemma_cell_index_bijective(mx, my, mz, lx, ly, lz);
        }
    }
}

/// Tree blocks land at the world cell they name, taken relative to the
/// chunk's minimum corner `(16 * p.x, 256 * p.y, 16 * p.z)`: when block `k`
/// of a site's tree falls inside the chunk at `p`, its local cell is no
/// longer air once a site on a surface from 66 to 190 has grown, and when that cell was air and no
/// earlier block of the tree fell on it, it holds block `k`'s kind.
pub proof fn lemma_tree_blocks_land_in_their_cells(cells: Seq<Block>, p: ChunkPos, site: TreeSite, k: int)
    requires
        cells.len() == CHUNK_VOLUME,
        65 < site.surface_y <= 190,
        0 <= k < site_tree(site_hash(site.wx, site.wz), site.mountains_dominate, site.hills_over_plains).len(),
        ({
            let b = site_tree(site_hash(site.wx, site.wz), site.mountains_dominate, site.hills_over_plains)[k];
            let (lx, ly, lz) = local_cell(p, site.wx + b.0, site.surface_y + 1 + b.1, site.wz + b.2);
            in_chunk(lx, ly, lz)
        }),
    ensures
        ({
            let tree = site_tree(site_hash(site.wx, site.wz), site.mountains_dominate, site.hills_over_plains);
            let b = tree[k];
            let (lx, ly, lz) = local_cell(p, site.wx + b.0, site.surface_y + 1 + b.1, site.wz + b.2);
            let after = grow_site(cells, 16 * p.x, 256 * p.y, 16 * p.z, site);
            &&& !(after[cell_index(lx, ly, lz)].kind is Air)
            &&& (cells[cell_index(lx, ly, lz)].kind is Air && (forall|j: int| 0 <= j < k ==> (tree[j].0,
                tree[j].1, tree[j].2) != (b.0, b.1, b.2))) ==> after[cell_index(lx, ly, lz)].kind == b.3
        }),
{
    let tree = site_tree(site_hash(site.wx, site.wz), site.mountains_dominate, site.hills_over_plains);
    lemma_site_tree_wood_and_leaves(site);
    lemma_place_tree_fills_block_cell(
        cells,
        16 * p.x,
        256 * p.y,
        16 * p.z,
        site.wx as int,
        site.surface_y + 1,
        site.wz as int,
        tree,
        tree.len(),
        k,
    );
}

proof fn lemma_pine_trunk_first(h: int, n: nat)
    requires
        n >= 1,
    ensures
        pine_trunk(h, n).len() >= 1,
        pine_trunk(h, n)[0] == (0i32, 0i32, 0i32, BlockKind::Wood),
    decreases n,
{
    let prev = pine_trunk(h, (n - 1) as nat);
    let level = crate::world::tree::pine_trunk_level(h, n - 1);
    assert(pine_trunk(h, n) == prev + level);
    if n > 1 {
        lemma_pine_trunk_first(h, (n - 1) as nat);
        assert((prev + level)[0] == prev[0]);
    } else {
        assert(prev.len() == 0);
        let extra = if n - 1 < 2 {
            seq![crate::world::tree::wood(1, n - 1, 0), crate::world::tree::wood(0, n - 1, 1), crate::world::tree::wood(1, n - 1, 1)]
        } else if n - 1 < h / 2 {
            if (n - 1) % 2 == 0 {
                seq![crate::world::tree::wood(1, n - 1, 0)]
            } else {
                seq![crate::world::tree::wood(0, n - 1, 1)]
            }
        } else {
            Seq::empty()
        };
        assert(level == seq![crate::world::tree::wood(0, n - 1, 0)] + extra);
        assert(level[0] == crate::world::tree::wood(0, 0, 0));
        assert((prev + level)[0] == level[0]);
    }
}

/// The trunk of a site's tree starts on the cell above the site's surface:
/// in a chunk at `p` whose local cell
/// `(wx - 16 * p.x, surface_y + 1 - 256 * p.y, wz - 16 * p.z)` is air, a
/// site whose surface lies from 66 to 190 leaves wood there.
pub proof fn lemma_trunk_base_is_wood(cells: Seq<Block>, p: ChunkPos, site: TreeSite)
    requires
        cells.len() == CHUNK_VOLUME,
        65 < site.surface_y <= 190,
        in_chunk(site.wx - 16 * p.x, site.surface_y + 1 - 256 * p.y, site.wz - 16 * p.z),
        cells[cell_index(site.wx - 16 * p.x, site.surface_y + 1 - 256 * p.y, site.wz - 16 * p.z)].kind is Air,
    ensures
        grow_site(cells, 16 * p.x, 256 * p.y, 16 * p.z, site)[cell_index(
            site.wx - 16 * p.x,
            site.surface_y + 1 - 256 * p.y,
            site.wz - 16 * p.z,
        )].kind == BlockKind::Wood,
{
    let hash = site_hash(site.wx, site.wz);
    let tree = site_tree(hash, site.mountains_dominate, site.hills_over_plains);
    assert(tree.len() >= 1 && tree[0] == (0i32, 0i32, 0i32, BlockKind::Wood)) by {
        lemma_pine_trunk_first(8 + hash % 5, (8 + hash % 5) as nat);
        lemma_pine_trunk_first(7 + hash % 4, (7 + hash % 4) as nat);
        let h1 = 5 + hash % 3;
        let h2 = 4 + hash % 3;
        assert(crate::world::tree::straight_trunk(h1 as nat)[0] == (0i32, 0i32, 0i32, BlockKind::Wood));
        assert(crate::world::tree::straight_trunk(h2 as nat)[0] == (0i32, 0i32, 0i32, BlockKind::Wood));
    }
    lemma_tree_blocks_land_in_their_cells(cells, p, site, 0);
}

} // verus!
