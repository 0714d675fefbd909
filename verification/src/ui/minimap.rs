//! The minimap legend: which kind of ground a minimap pixel shows, from the
//! height of the first free cell above its column, and the base colour of
//! each kind. The application scales the base colour by a height shade.

use vstd::prelude::*;

verus! {

/// Side of the square minimap image, in pixels.
pub const MINIMAP_SIZE: u32 = 32;

/// What a minimap pixel shows.
#[derive(Debug, Clone, Copy, PartialEq, Eq, Structural)]
pub enum MinimapTerrain {
    Forest,
    Beach,
    Plains,
    Hills,
    Mountains,
}

/// Ground whose first free cell is at most this high is beach; trees grow
/// only above it.
pub const BEACH_TOP: i32 = 65;

/// Ground below this height (and above the beach) is plains.
pub const PLAINS_TOP: i32 = 90;

/// Ground below this height (and above the plains) is hills; higher ground
/// is mountains.
pub const HILLS_TOP: i32 = 130;

/// The kind shown for a column whose first free cell is at `ground_y`, where
/// `tree_column` says whether the tree noise and hash select the column: a
/// selected column above the beach is forest; otherwise the height bands
/// decide.
pub open spec fn minimap_kind(ground_y: int, tree_column: bool) -> MinimapTerrain {
    if ground_y > BEACH_TOP && tree_column {
        MinimapTerrain::Forest
    } else if ground_y <= BEACH_TOP {
        MinimapTerrain::Beach
    } else if ground_y < PLAINS_TOP {
        MinimapTerrain::Plains
    } else if ground_y < HILLS_TOP {
        MinimapTerrain::Hills
    } else {
        MinimapTerrain::Mountains
    }
}

/// The position of a height band from the sea upwards.
pub open spec fn band_rank(k: MinimapTerrain) -> int {
    match k {
        MinimapTerrain::Beach => 0,
        MinimapTerrain::Plains => 1,
        MinimapTerrain::Hills => 2,
        MinimapTerrain::Mountains => 3,
        MinimapTerrain::Forest => 1,
    }
}

/// The kind a minimap pixel shows for a column whose first free cell is at
/// `ground_y`.
pub fn classify_minimap_cell(ground_y: i32, tree_column: bool) -> (r: MinimapTerrain)
    ensures
        r == minimap_kind(ground_y as int, tree_column),
{
    let is_tree = ground_y > BEACH_TOP && tree_column;
    if is_tree {
        MinimapTerrain::Forest
    } else if ground_y <= BEACH_TOP {
        MinimapTerrain::Beach
    } else if ground_y < PLAINS_TOP {
        MinimapTerrain::Plains
    } else if ground_y < HILLS_TOP {
        MinimapTerrain::Hills
    } else {
        MinimapTerrain::Mountains
    }
}

/// The unshaded colour of each kind.
pub open spec fn base_rgb(k: MinimapTerrain) -> [u8; 3] {
    match k {
        MinimapTerrain::Forest => [18u8, 90u8, 18u8],
        MinimapTerrain::Beach => [160u8, 130u8, 80u8],
        MinimapTerrain::Plains => [40u8, 155u8, 45u8],
        MinimapTerrain::Hills => [80u8, 120u8, 60u8],
        MinimapTerrain::Mountains => [150u8, 150u8, 150u8],
    }
}

impl MinimapTerrain {
    /// The unshaded colour of this kind: dark green forest, sand, grass
    /// green, olive hills and grey stone.
    pub fn base_color(self) -> (r: [u8; 3])
        ensures
            r == base_rgb(self),
    {
        match self {
            MinimapTerrain::Forest => [18u8, 90u8, 18u8],
            MinimapTerrain::Beach => [160u8, 130u8, 80u8],
            MinimapTerrain::Plains => [40u8, 155u8, 45u8],
            MinimapTerrain::Hills => [80u8, 120u8, 60u8],
            MinimapTerrain::Mountains => [150u8, 150u8, 150u8],
        }
    }
}

/// The byte offset of pixel `(x, z)` in the minimap's RGBA image.
pub fn minimap_pixel_offset(x: u32, z: u32) -> (r: usize)
    requires
        x < MINIMAP_SIZE,
        z < MINIMAP_SIZE,
    ensures
        r == (z * MINIMAP_SIZE + x) * 4,
        r + 4 <= MINIMAP_SIZE * MINIMAP_SIZE * 4,
{
    assert(z * 32 + x < 1024) by (nonlinear_arith)
        requires
            x < 32,
            z < 32,
    ;
    ((z * MINIMAP_SIZE + x) * 4) as usize
}

/// Forest is drawn only above the beach, and away from forest the bands
/// rise with the ground: higher ground never shows a lower band.
pub proof fn lemma_minimap_bands(g1: int, g2: int, tree_column: bool)
    ensures
        minimap_kind(g1, tree_column) == MinimapTerrain::Forest ==> g1 > BEACH_TOP,
        g1 <= g2 ==> band_rank(minimap_kind(g1, false)) <= band_rank(minimap_kind(g2, false)),
{
}

} // verus!
