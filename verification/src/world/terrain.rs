//! The integer decisions of terrain generation: which block a cell gets
//! once the surface height of its column is known, where the flat spawn
//! area lies, where caves may be carved and where trees may stand. The
//! surface heights and noise values themselves are computed by the
//! application from Perlin noise.

use vstd::prelude::*;
use crate::world::block::{Block, BlockKind};

verus! {

/// Radius (blocks) of the fully flat spawn platform around (0, 0).
pub const SPAWN_RADIUS: i32 = 16;

/// Radius at which the flat spawn area finishes blending into natural
/// terrain.
pub const SPAWN_BLEND_RADIUS: i32 = 40;

/// Y level treated as "sea": sand appears near this height.
pub const SEA_LEVEL: i32 = 62;

/// Absolute bedrock floor.
pub const BEDROCK_Y: i32 = 0;

/// Whether column `(x, z)` lies in the spawn area: within
/// `SPAWN_BLEND_RADIUS` of the origin.
pub open spec fn in_spawn_area(x: int, z: int) -> bool {
    x * x + z * z <= SPAWN_BLEND_RADIUS * SPAWN_BLEND_RADIUS
}

/// Whether column `(world_x, world_z)` lies in the spawn area.
pub fn is_spawn_area(world_x: i32, world_z: i32) -> (r: bool)
    requires
        world_x * world_x + world_z * world_z <= i32::MAX,
    ensures
        r == in_spawn_area(world_x as int, world_z as int),
{
    assert(0 <= world_x * world_x && 0 <= world_z * world_z) by (nonlinear_arith);
    world_x * world_x + world_z * world_z <= SPAWN_BLEND_RADIUS * SPAWN_BLEND_RADIUS
}

/// Whether caves may be carved at height `y`: above the two bedrock-side
/// layers and at least five blocks below sea level.
pub open spec fn cave_allowed(y: int) -> bool {
    !(y <= BEDROCK_Y + 1 || y > SEA_LEVEL - 5)
}

/// Whether caves may be carved at height `world_y`; the cave noise is only
/// consulted where this holds.
pub fn cave_possible(world_y: i32) -> (r: bool)
    ensures
        r == cave_allowed(world_y as int),
{
    !(world_y <= BEDROCK_Y + 1 || world_y > SEA_LEVEL - 5)
}

/// The kind of the spawn-area cell at height `y` below a surface at `s`:
/// bedrock at 0, air above the surface, grass on it, four layers of dirt,
/// then stone.
pub open spec fn spawn_kind(y: int, s: int) -> BlockKind {
    if y == 0 {
        BlockKind::Bedrock
    } else if y > s {
        BlockKind::Air
    } else if y == s {
        BlockKind::Grass
    } else if y > s - 5 {
        BlockKind::Dirt
    } else {
        BlockKind::Stone
    }
}

/// The block of a spawn-area cell at height `world_y` under a surface at
/// `surface_height`.
pub fn spawn_block_at(world_y: i32, surface_height: i32) -> (r: Block)
    requires
        surface_height >= i32::MIN + 5,
    ensures
        r.kind == spawn_kind(world_y as int, surface_height as int),
{
    if world_y == 0 {
        return Block { kind: BlockKind::Bedrock };
    }
    if world_y > surface_height {
        Block { kind: BlockKind::Air }
    } else if world_y == surface_height {
        Block { kind: BlockKind::Grass }
    } else if world_y > surface_height - 5 {
        Block { kind: BlockKind::Dirt }
    } else {
        Block { kind: BlockKind::Stone }
    }
}

/// The kind of a natural cell at height `y` under a surface at `s`: air
/// above the surface, and below it where the cave noise carves the cell
/// inside the cave band; on the surface sand near sea level, else grass;
/// four layers of sand near sea level, else dirt; then the ore found there,
/// or stone.
pub open spec fn natural_kind(y: int, s: int, in_cave: bool, ore: Option<BlockKind>) -> BlockKind {
    if y > s {
        BlockKind::Air
    } else if y < s && in_cave && cave_allowed(y) {
        BlockKind::Air
    } else if y == s {
        if s <= SEA_LEVEL + 2 {
            BlockKind::Sand
        } else {
            BlockKind::Grass
        }
    } else if s - y <= 4 {
        if s <= SEA_LEVEL + 2 {
            BlockKind::Sand
        } else {
            BlockKind::Dirt
        }
    } else {
        match ore {
            Some(k) => k,
            None => BlockKind::Stone,
        }
    }
}

/// The block of a natural (non-spawn) cell at height `world_y` under a
/// surface at `surface_height`, where `in_cave` says whether the cave noise
/// would carve the cell (it only does inside the cave band) and `ore` is the
/// ore found there, if any.
pub fn natural_block_at(world_y: i32, surface_height: i32, in_cave: bool, ore: Option<BlockKind>) -> (r:
    Block)
    requires
        surface_height - world_y <= i32::MAX,
    ensures
        r.kind == natural_kind(world_y as int, surface_height as int, in_cave, ore),
{
    if world_y > surface_height {
        return Block { kind: BlockKind::Air };
    }
    if world_y < surface_height && in_cave && cave_possible(world_y) {
        return Block { kind: BlockKind::Air };
    }
    if world_y == surface_height {
        if surface_height <= SEA_LEVEL + 2 {
            return Block { kind: BlockKind::Sand };
        }
        return Block { kind: BlockKind::Grass };
    }
    let depth: i32 = surface_height - world_y;
    if depth <= 4 {
        if surface_height <= SEA_LEVEL + 2 {
            return Block { kind: BlockKind::Sand };
        }
        return Block { kind: BlockKind::Dirt };
    }
    if let Some(ore_kind) = ore {
        return Block { kind: ore_kind };
    }
    Block { kind: BlockKind::Stone }
}

/// The kind of the cell at `(x, y, z)`, given the surface height of its
/// column (the flattened spawn height inside the spawn area, the natural
/// height elsewhere), whether the cave noise carves it, and its ore.
pub open spec fn terrain_kind(x: int, y: int, z: int, s: int, in_cave: bool, ore: Option<BlockKind>) -> BlockKind {
    if y <= BEDROCK_Y {
        BlockKind::Bedrock
    } else if in_spawn_area(x, z) {
        spawn_kind(y, s)
    } else {
        natural_kind(y, s, in_cave, ore)
    }
}

/// The block at world cell `(world_x, world_y, world_z)`: bedrock at the
/// floor, spawn-area layering near the origin, natural layering elsewhere.
/// `surface_height` is the surface of the column as the spawn or natural
/// height map gives it; `in_cave` and `ore` describe the cell. Cells on or
/// below the floor are bedrock whatever the other arguments are.
pub fn block_at(
    world_x: i32,
    world_y: i32,
    world_z: i32,
    surface_height: i32,
    in_cave: bool,
    ore: Option<BlockKind>,
) -> (r: Block)
    requires
        world_y > BEDROCK_Y ==> world_x * world_x + world_z * world_z <= i32::MAX,
        world_y > BEDROCK_Y ==> surface_height >= i32::MIN + 5,
    ensures
        r.kind == terrain_kind(
            world_x as int,
            world_y as int,
            world_z as int,
            surface_height as int,
            in_cave,
            ore,
        ),
{
    if world_y <= BEDROCK_Y {
        return Block { kind: BlockKind::Bedrock };
    }
    if is_spawn_area(world_x, world_z) {
        return spawn_block_at(world_y, surface_height);
    }
    natural_block_at(world_y, surface_height, in_cave, ore)
}

/// The tree-placement hash of column `(x, z)`.
pub open spec fn tree_hash(x: i32, z: i32) -> u32 {
    (vstd::wrapping::i32_specs::wrapping_mul(x, 374761393) ^ vstd::wrapping::i32_specs::wrapping_mul(
        z,
        668265263,
    )) as u32
}

/// Whether the hash of column `(world_x, world_z)` selects it for a tree
/// (one column in twelve); the tree noise must agree as well.
pub fn tree_hash_selects(world_x: i32, world_z: i32) -> (r: bool)
    ensures
        r == (tree_hash(world_x, world_z) % 12 == 0),
{
    let hash: u32 = (world_x.wrapping_mul(374761393) ^ world_z.wrapping_mul(668265263)) as u32;
    hash % 12 == 0
}

/// Every cell at or below the bedrock floor is bedrock, every cell of the
/// spawn area above its surface is air, and the surface cell of the spawn
/// area is grass.
pub proof fn lemma_terrain_layers(x: int, y: int, z: int, s: int, in_cave: bool, ore: Option<BlockKind>)
    ensures
        y <= BEDROCK_Y ==> terrain_kind(x, y, z, s, in_cave, ore) == BlockKind::Bedrock,
        y > BEDROCK_Y && y > s ==> terrain_kind(x, y, z, s, in_cave, ore) == BlockKind::Air,
        y > BEDROCK_Y && in_spawn_area(x, z) && y == s ==> terrain_kind(x, y, z, s, in_cave, ore)
            == BlockKind::Grass,
        y > BEDROCK_Y && !in_spawn_area(x, z) && y == s ==> (terrain_kind(x, y, z, s, in_cave, ore)
            == BlockKind::Sand <==> s <= SEA_LEVEL + 2),
{
}

/// With no ore (none is currently generated) the terrain holds only air,
/// bedrock, stone, dirt, grass and sand: never water, wood, leaves or ore.
pub proof fn lemma_terrain_kinds(x: int, y: int, z: int, s: int, in_cave: bool)
    ensures
        ({
            let k = terrain_kind(x, y, z, s, in_cave, None);
            k == BlockKind::Air || k == BlockKind::Bedrock || k == BlockKind::Stone || k
                == BlockKind::Dirt || k == BlockKind::Grass || k == BlockKind::Sand
        }),
{
}

/// Above the cave band (from five blocks below sea level up) a column is
/// solid up to its surface and air above it: an air cell there has air
/// above it too. Ore that is itself air is left out.
pub proof fn lemma_air_above_cave_band(
    x: int,
    y: int,
    z: int,
    s: int,
    in_cave: bool,
    in_cave_above: bool,
    ore: Option<BlockKind>,
    ore_above: Option<BlockKind>,
)
    requires
        y > SEA_LEVEL - 5,
        ore != Some(BlockKind::Air),
        terrain_kind(x, y, z, s, in_cave, ore) == BlockKind::Air,
    ensures
        terrain_kind(x, y + 1, z, s, in_cave_above, ore_above) == BlockKind::Air,
        y > s,
{
}

} // verus!
