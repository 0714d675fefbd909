//! The block texture atlas: which tile each block face shows, where each
//! tile sits in the atlas, and the atlas pixels.

use vstd::prelude::*;
use crate::world::block::BlockKind;
use crate::rendering::texture_generator::{TILE_SIZE, TILE_BYTES, texture_bytes};

verus! {

/// Number of tile slots in the atlas (nine textures plus three ore slots).
pub const TILE_COUNT: u32 = 12;

/// How many tiles fit across one atlas row.
pub const ATLAS_COLS: u32 = 4;

/// Number of tile rows: `TILE_COUNT / ATLAS_COLS` rounded up.
pub const ATLAS_ROWS: u32 = 3;

/// Atlas width in pixels.
pub const ATLAS_W: u32 = 256;

/// Atlas height in pixels.
pub const ATLAS_H: u32 = 192;

/// The atlas layout constants agree with the tile size and count.
pub proof fn lemma_atlas_dimensions()
    ensures
        ATLAS_ROWS as int == (TILE_COUNT + ATLAS_COLS - 1) as int / ATLAS_COLS as int,
        ATLAS_W == ATLAS_COLS * TILE_SIZE,
        ATLAS_H == ATLAS_ROWS * TILE_SIZE,
{
}

/// The tiles of the atlas, in slot order.
#[derive(Debug, Clone, Copy, PartialEq, Eq, Hash, Structural)]
pub enum TileIndex {
    Stone,
    Dirt,
    GrassTop,
    GrassSide,
    Sand,
    Water,
    Wood,
    Leaves,
    Bedrock,
    CoalOre,
    IronOre,
    DiamondOre,
}

/// The atlas slot of a tile.
pub open spec fn tile_slot(t: TileIndex) -> u32 {
    match t {
        TileIndex::Stone => 0,
        TileIndex::Dirt => 1,
        TileIndex::GrassTop => 2,
        TileIndex::GrassSide => 3,
        TileIndex::Sand => 4,
        TileIndex::Water => 5,
        TileIndex::Wood => 6,
        TileIndex::Leaves => 7,
        TileIndex::Bedrock => 8,
        TileIndex::CoalOre => 9,
        TileIndex::IronOre => 10,
        TileIndex::DiamondOre => 11,
    }
}

impl TileIndex {
    /// The atlas slot of this tile.
    pub fn to_u32(self) -> (r: u32)
        ensures
            r == tile_slot(self),
            r < TILE_COUNT,
    {
        match self {
            TileIndex::Stone => 0,
            TileIndex::Dirt => 1,
            TileIndex::GrassTop => 2,
            TileIndex::GrassSide => 3,
            TileIndex::Sand => 4,
            TileIndex::Water => 5,
            TileIndex::Wood => 6,
            TileIndex::Leaves => 7,
            TileIndex::Bedrock => 8,
            TileIndex::CoalOre => 9,
            TileIndex::IronOre => 10,
            TileIndex::DiamondOre => 11,
        }
    }
}

/// The six faces of a block.
#[derive(Debug, Clone, Copy, PartialEq, Eq, Hash, Structural)]
pub enum BlockFace {
    Top,
    Bottom,
    North,
    South,
    East,
    West,
}

/// The tile slot shown on face `face` of a block of kind `kind`: grass
/// shows grass on top, dirt below and the grass side elsewhere; ores (and
/// air) use the stone tile; every other kind has a tile of its own.
pub open spec fn face_tile(kind: BlockKind, face: BlockFace) -> u32 {
    match kind {
        BlockKind::Air => 0,
        BlockKind::Stone => 0,
        BlockKind::Dirt => 1,
        BlockKind::Grass => match face {
            BlockFace::Top => 2,
            BlockFace::Bottom => 1,
            _ => 3,
        },
        BlockKind::Sand => 4,
        BlockKind::Water => 5,
        BlockKind::Wood => 6,
        BlockKind::Leaves => 7,
        BlockKind::Bedrock => 8,
        BlockKind::CoalOre => 0,
        BlockKind::IronOre => 0,
        BlockKind::DiamondOre => 0,
    }
}

/// Tile slot for a `(kind, face)` pair.
pub fn tile_index_for(kind: BlockKind, face: BlockFace) -> (r: u32)
    ensures
        r == face_tile(kind, face),
{
    match kind {
        BlockKind::Air => TileIndex::Stone.to_u32(),
        BlockKind::Stone => TileIndex::Stone.to_u32(),
        BlockKind::Dirt => TileIndex::Dirt.to_u32(),
        BlockKind::Grass => match face {
            BlockFace::Top => TileIndex::GrassTop.to_u32(),
            BlockFace::Bottom => TileIndex::Dirt.to_u32(),
            _ => TileIndex::GrassSide.to_u32(),
        },
        BlockKind::Sand => TileIndex::Sand.to_u32(),
        BlockKind::Water => TileIndex::Water.to_u32(),
        BlockKind::Wood => TileIndex::Wood.to_u32(),
        BlockKind::Leaves => TileIndex::Leaves.to_u32(),
        BlockKind::Bedrock => TileIndex::Bedrock.to_u32(),
        BlockKind::CoalOre => TileIndex::Stone.to_u32(),
        BlockKind::IronOre => TileIndex::Stone.to_u32(),
        BlockKind::DiamondOre => TileIndex::Stone.to_u32(),
    }
}

/// Every kind with a texture of its own shows it on all six faces, in the
/// atlas order of the generated textures (stone 0, dirt 1, grass top 2,
/// grass side 3, sand 4, water 5, wood 6, leaves 7, bedrock 8): stone,
/// dirt, sand, water, wood, leaves and bedrock show their own tile; grass
/// shows its top tile on top, dirt below and its side tile on the four
/// sides; ores and air fall back to stone. Kinds with textures of their own
/// never share a tile.
pub proof fn lemma_kinds_show_their_own_tiles(f: BlockFace)
    ensures
        face_tile(BlockKind::Stone, f) == tile_slot(TileIndex::Stone) && tile_slot(TileIndex::Stone) == 0,
        face_tile(BlockKind::Dirt, f) == tile_slot(TileIndex::Dirt) && tile_slot(TileIndex::Dirt) == 1,
        face_tile(BlockKind::Sand, f) == tile_slot(TileIndex::Sand) && tile_slot(TileIndex::Sand) == 4,
        face_tile(BlockKind::Water, f) == tile_slot(TileIndex::Water) && tile_slot(TileIndex::Water) == 5,
        face_tile(BlockKind::Wood, f) == tile_slot(TileIndex::Wood) && tile_slot(TileIndex::Wood) == 6,
        face_tile(BlockKind::Leaves, f) == tile_slot(TileIndex::Leaves) && tile_slot(TileIndex::Leaves)
            == 7,
        face_tile(BlockKind::Bedrock, f) == tile_slot(TileIndex::Bedrock) && tile_slot(
            TileIndex::Bedrock,
        ) == 8,
        face_tile(BlockKind::Grass, f) == if f is Top {
            2u32
        } else if f is Bottom {
            1u32
        } else {
            3u32
        },
        tile_slot(TileIndex::GrassTop) == 2 && tile_slot(TileIndex::GrassSide) == 3,
        face_tile(BlockKind::CoalOre, f) == 0 && face_tile(BlockKind::IronOre, f) == 0
            && face_tile(BlockKind::DiamondOre, f) == 0 && face_tile(BlockKind::Air, f) == 0,
{
}

/// True when two (kind, face) combinations share the same tile — the
/// predicate by which faces could be merged.
pub fn same_tile(kind_a: BlockKind, face_a: BlockFace, kind_b: BlockKind, face_b: BlockFace) -> (r: bool)
    ensures
        r == (face_tile(kind_a, face_a) == face_tile(kind_b, face_b)),
{
    tile_index_for(kind_a, face_a) == tile_index_for(kind_b, face_b)
}

/// Every face shows one of the nine generated textures, and sharing a tile
/// is an equivalence: reflexive, symmetric and transitive.
pub proof fn lemma_face_tiles(
    k1: BlockKind,
    f1: BlockFace,
    k2: BlockKind,
    f2: BlockFace,
    k3: BlockKind,
    f3: BlockFace,
)
    ensures
        face_tile(k1, f1) < 9,
        face_tile(k1, f1) == face_tile(k1, f1),
        face_tile(k1, f1) == face_tile(k2, f2) ==> face_tile(k2, f2) == face_tile(k1, f1),
        face_tile(k1, f1) == face_tile(k2, f2) && face_tile(k2, f2) == face_tile(k3, f3) ==> face_tile(
            k1,
            f1,
        ) == face_tile(k3, f3),
{
}

/// The face that an outward normal points through: +y is the top, -y the
/// bottom, -z north, +z south, +x east and -x west (any other vector is
/// taken as the top).
pub open spec fn face_of_normal(n: (i32, i32, i32)) -> BlockFace {
    if n == (0i32, -1i32, 0i32) {
        BlockFace::Bottom
    } else if n == (0i32, 0i32, -1i32) {
        BlockFace::North
    } else if n == (0i32, 0i32, 1i32) {
        BlockFace::South
    } else if n == (1i32, 0i32, 0i32) {
        BlockFace::East
    } else if n == (-1i32, 0i32, 0i32) {
        BlockFace::West
    } else {
        BlockFace::Top
    }
}

/// The face of a block that a quad with outward normal `normal` shows.
pub fn face_for_normal(normal: (i32, i32, i32)) -> (r: BlockFace)
    ensures
        r == face_of_normal(normal),
{
    let (x, y, z) = normal;
    if x == 0 && y == -1 && z == 0 {
        BlockFace::Bottom
    } else if x == 0 && y == 0 && z == -1 {
        BlockFace::North
    } else if x == 0 && y == 0 && z == 1 {
        BlockFace::South
    } else if x == 1 && y == 0 && z == 0 {
        BlockFace::East
    } else if x == -1 && y == 0 && z == 0 {
        BlockFace::West
    } else {
        BlockFace::Top
    }
}

/// The atlas cell `(column, row)` of tile slot `tile_idx`.
pub open spec fn tile_cell_of(tile_idx: u32) -> (u32, u32) {
    (tile_idx % ATLAS_COLS, tile_idx / ATLAS_COLS)
}

/// The atlas cell `(column, row)` of tile slot `tile_idx`: slots fill the
/// atlas row by row, `ATLAS_COLS` per row.
pub fn tile_cell(tile_idx: u32) -> (r: (u32, u32))
    ensures
        r == tile_cell_of(tile_idx),
{
    (tile_idx % ATLAS_COLS, tile_idx / ATLAS_COLS)
}

/// Number of bytes of the atlas image.
pub const ATLAS_BYTES: usize = 196608;

/// Byte `i` of the atlas assembled from `tiles`: the pixel at atlas
/// coordinates `(ax, ay)` shows pixel `(ax % 64, ay % 64)` of the tile in
/// cell `(ax / 64, ay / 64)`, or is transparent black where no tile lies.
pub open spec fn atlas_byte(tiles: Seq<Seq<u8>>, i: int) -> u8 {
    let p = i / 4;
    let c = i % 4;
    let ax = p % 256;
    let ay = p / 256;
    let t = (ay / 64) * 4 + ax / 64;
    if t < tiles.len() {
        tiles[t][((ay % 64) * 64 + ax % 64) * 4 + c]
    } else {
        0
    }
}

/// The atlas assembled from `tiles`.
pub open spec fn atlas_bytes(tiles: Seq<Seq<u8>>) -> Seq<u8> {
    Seq::new(ATLAS_BYTES as nat, |i: int| atlas_byte(tiles, i))
}

/// Which bytes the copy loop has written after `idx` whole tiles, `ty`
/// whole rows of the next tile and `tx` pixels of the row after them.
spec fn atlas_written(i: int, idx: int, ty: int, tx: int) -> bool {
    let p = i / 4;
    let ax = p % 256;
    let ay = p / 256;
    let t = (ay / 64) * 4 + ax / 64;
    let row = ay % 64;
    let col = ax % 64;
    t < idx || (t == idx && (row < ty || (row == ty && col < tx)))
}

proof fn lemma_atlas_offset(idx: int, ty: int, tx: int, c: int)
    requires
        0 <= idx < 12,
        0 <= ty < 64,
        0 <= tx < 64,
        0 <= c < 4,
    ensures
        ({
            let ox = (idx % 4) * 64;
            let oy = (idx / 4) * 64;
            let d = ((oy + ty) * 256 + (ox + tx)) * 4 + c;
            let p = d / 4;
            &&& 0 <= d < ATLAS_BYTES
            &&& d % 4 == c
            &&& p % 256 == ox + tx
            &&& p / 256 == oy + ty
            &&& ((p / 256) / 64) * 4 + (p % 256) / 64 == idx
            &&& (p / 256) % 64 == ty
            &&& (p % 256) % 64 == tx
        }),
{
    let ox = (idx % 4) * 64;
    let oy = (idx / 4) * 64;
    let d = ((oy + ty) * 256 + (ox + tx)) * 4 + c;
    assert(0 <= idx % 4 < 4 && 0 <= idx / 4 < 3 && (idx / 4) * 4 + idx % 4 == idx) by (nonlinear_arith)
        requires
            0 <= idx < 12,
    ;
    let a = idx % 4;
    let b = idx / 4;
    assert({
        let p = d / 4;
        &&& 0 <= d < 196608
        &&& d % 4 == c
        &&& p % 256 == ox + tx
        &&& p / 256 == oy + ty
        &&& ((p / 256) / 64) * 4 + (p % 256) / 64 == b * 4 + a
        &&& (p / 256) % 64 == ty
        &&& (p % 256) % 64 == tx
    }) by (nonlinear_arith)
        requires
            ox == a * 64,
            oy == b * 64,
            0 <= a < 4,
            0 <= b < 3,
            0 <= ty < 64,
            0 <= tx < 64,
            0 <= c < 4,
            d == ((oy + ty) * 256 + (ox + tx)) * 4 + c,
    ;
}

/// The RGBA bytes of the atlas image: each generated tile copied into its
/// cell, the cells without a tile left transparent black.
pub fn build_atlas_rgba(tiles: &[Vec<u8>; 9]) -> (r: Vec<u8>)
    requires
        forall|k: int| 0 <= k < 9 ==> (#[trigger] tiles@[k])@.len() == TILE_BYTES,
    ensures
        r@ == atlas_bytes(Seq::new(9, |k: int| tiles@[k]@)),
{
    let ghost ts = Seq::new(9, |k: int| tiles@[k]@);
    let mut rgba = vec![0u8; (ATLAS_W * ATLAS_H * 4) as usize];
    let mut idx: usize = 0;
    while idx < 9
        invariant
            0 <= idx <= 9,
            ts == Seq::new(9, |k: int| tiles@[k]@),
            forall|k: int| 0 <= k < 9 ==> (#[trigger] tiles@[k])@.len() == TILE_BYTES,
            rgba@.len() == ATLAS_BYTES,
            forall|i: int|
                0 <= i < ATLAS_BYTES ==> #[trigger] rgba@[i] == if atlas_written(i, idx as int, 0, 0) {
                    atlas_byte(ts, i)
                } else {
                    0u8
                },
        decreases 9 - idx,
    {
        let col: u32 = (idx as u32) % ATLAS_COLS;
        let row: u32 = (idx as u32) / ATLAS_COLS;
        let ox: u32 = col * TILE_SIZE;
        let oy: u32 = row * TILE_SIZE;
        let tile = &tiles[idx];
        assert(tile@ == ts[idx as int]);
        let mut ty: u32 = 0;
        while ty < TILE_SIZE
            invariant
                0 <= idx < 9,
                0 <= ty <= 64,
                ox == (idx % 4) * 64,
                oy == (idx / 4) * 64,
                ts == Seq::new(9, |k: int| tiles@[k]@),
                tile@ == ts[idx as int],
                tile@.len() == TILE_BYTES,
                rgba@.len() == ATLAS_BYTES,
                forall|i: int|
                    0 <= i < ATLAS_BYTES ==> #[trigger] rgba@[i] == if atlas_written(
                        i,
                        idx as int,
                        ty as int,
                        0,
                    ) {
                        atlas_byte(ts, i)
                    } else {
                        0u8
                    },
            decreases 64 - ty,
        {
            let mut tx: u32 = 0;
            while tx < TILE_SIZE
                invariant
                    0 <= idx < 9,
                    0 <= ty < 64,
                    0 <= tx <= 64,
                    ox == (idx % 4) * 64,
                    oy == (idx / 4) * 64,
                    ts == Seq::new(9, |k: int| tiles@[k]@),
                    tile@ == ts[idx as int],
                    tile@.len() == TILE_BYTES,
                    rgba@.len() == ATLAS_BYTES,
                    forall|i: int|
                        0 <= i < ATLAS_BYTES ==> #[trigger] rgba@[i] == if atlas_written(
                            i,
                            idx as int,
                            ty as int,
                            tx as int,
                        ) {
                            atlas_byte(ts, i)
                        } else {
                            0u8
                        },
                decreases 64 - tx,
            {
                proof {
                    lemma_atlas_offset(idx as int, ty as int, tx as int, 0);
                    assert((ty * 64 + tx) * 4 + 3 < 16384) by (nonlinear_arith)
                        requires
                            0 <= ty < 64,
                            0 <= tx < 64,
                    ;
                }
                let src: usize = ((ty * TILE_SIZE + tx) * 4) as usize;
                let dst: usize = (((oy + ty) * ATLAS_W + (ox + tx)) * 4) as usize;
                let ghost prev = rgba@;
                let mut c: usize = 0;
                while c < 4
                    invariant
                        0 <= c <= 4,
                        0 <= idx < 9,
                        0 <= ty < 64,
                        0 <= tx < 64,
                        ox == (idx % 4) * 64,
                        oy == (idx / 4) * 64,
                        src == (ty * 64 + tx) * 4,
                        dst == ((oy + ty) * 256 + (ox + tx)) * 4,
                        dst + 3 < ATLAS_BYTES,
                        src + 3 < TILE_BYTES,
                        tile@.len() == TILE_BYTES,
                        rgba@.len() == ATLAS_BYTES,
                        forall|i: int|
                            0 <= i < ATLAS_BYTES ==> #[trigger] rgba@[i] == if dst <= i < dst + c {
                                tile@[src + (i - dst)]
                            } else {
                                prev[i]
                            },
                    decreases 4 - c,
                {
                    rgba.set(dst + c, tile[src + c]);
                    c = c + 1;
                }
                proof {
                    assert forall|i: int| 0 <= i < ATLAS_BYTES implies #[trigger] rgba@[i] == if atlas_written(
                        i,
                        idx as int,
                        ty as int,
                        tx + 1,
                    ) {
                        atlas_byte(ts, i)
                    } else {
                        0u8
                    } by {
                        if dst <= i < dst + 4 {
                            lemma_atlas_offset(idx as int, ty as int, tx as int, i - dst);
                        } else {
                            lemma_atlas_outside(i, dst as int, idx as int, ty as int, tx as int);
                        }
                    }
                }
                tx = tx + 1;
            }
            proof {
                assert forall|i: int| 0 <= i < ATLAS_BYTES implies atlas_written(i, idx as int, ty as int, 64)
                    == atlas_written(i, idx as int, ty + 1, 0) by {
                    lemma_atlas_coords(i);
                }
            }
            ty = ty + 1;
        }
        proof {
            assert forall|i: int| 0 <= i < ATLAS_BYTES implies atlas_written(i, idx as int, 64, 0)
                == atlas_written(i, idx + 1, 0, 0) by {
                lemma_atlas_coords(i);
            }
        }
        idx = idx + 1;
    }
    proof {
        assert forall|i: int| 0 <= i < ATLAS_BYTES implies #[trigger] rgba@[i] == atlas_byte(ts, i) by {
            lemma_atlas_coords(i);
        }
    }
    assert(rgba@ =~= atlas_bytes(ts));
    rgba
}

proof fn lemma_atlas_coords(i: int)
    requires
        0 <= i < ATLAS_BYTES,
    ensures
        ({
            let p = i / 4;
            let ax = p % 256;
            let ay = p / 256;
            &&& 0 <= ax < 256
            &&& 0 <= ay < 192
            &&& 0 <= ay % 64 < 64
            &&& 0 <= ax % 64 < 64
            &&& 0 <= (ay / 64) * 4 + ax / 64 < 12
            &&& ((ay / 64) * 4 + ax / 64 >= 9 ==> atlas_byte(Seq::new(9, |k: int| Seq::<u8>::empty()), i) == 0)
        }),
{
    let p = i / 4;
    let ax = p % 256;
    let ay = p / 256;
    assert(0 <= ax < 256 && 0 <= ay < 192 && 0 <= (ay / 64) * 4 + ax / 64 < 12) by (nonlinear_arith)
        requires
            0 <= i < 196608,
            p == i / 4,
            ax == p % 256,
            ay == p / 256,
    ;
}

proof fn lemma_atlas_outside(i: int, dst: int, idx: int, ty: int, tx: int)
    requires
        0 <= i < ATLAS_BYTES,
        0 <= idx < 12,
        0 <= ty < 64,
        0 <= tx < 64,
        dst == (((idx / 4) * 64 + ty) * 256 + ((idx % 4) * 64 + tx)) * 4,
        !(dst <= i < dst + 4),
    ensures
        atlas_written(i, idx, ty, tx + 1) == atlas_written(i, idx, ty, tx),
{
    let p = i / 4;
    let ax = p % 256;
    let ay = p / 256;
    lemma_atlas_coords(i);
    lemma_atlas_offset(idx, ty, tx, 0);
    if (ay / 64) * 4 + ax / 64 == idx && ay % 64 == ty && ax % 64 == tx {
        assert(ax == (idx % 4) * 64 + tx && ay == (idx / 4) * 64 + ty) by (nonlinear_arith)
            requires
                (ay / 64) * 4 + ax / 64 == idx,
                ay % 64 == ty,
                ax % 64 == tx,
                0 <= ax < 256,
                0 <= ay < 192,
        ;
        assert(p == ay * 256 + ax) by (nonlinear_arith)
            requires
                ax == p % 256,
                ay == p / 256,
                p >= 0,
        ;
        assert(dst <= i < dst + 4) by (nonlinear_arith)
            requires
                p == i / 4,
                i >= 0,
                dst == p * 4,
        ;
    }
}

/// The nine generated textures fill slots 0 to 8 of the atlas: every pixel
/// of a generated texture appears at its place in the atlas.
pub proof fn lemma_atlas_holds_tiles(tiles: Seq<Seq<u8>>, t: int, ty: int, tx: int, c: int)
    requires
        tiles.len() == 9,
        0 <= t < 9,
        0 <= ty < 64,
        0 <= tx < 64,
        0 <= c < 4,
    ensures
        atlas_bytes(tiles)[((((t / 4) * 64 + ty) * 256 + ((t % 4) * 64 + tx)) * 4) + c] == tiles[t][((
        ty * 64 + tx) * 4) + c],
{
    lemma_atlas_offset(t, ty, tx, c);
}

} // verus!
