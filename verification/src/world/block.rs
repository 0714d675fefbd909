use vstd::prelude::*;

verus! {

/// The kinds of block a world cell can hold. Each kind has a one-byte code
/// (its declaration position), used when chunks are saved.
#[derive(Debug, Clone, Copy, PartialEq, Eq, Hash, Structural)]
pub enum BlockKind {
    Air,
    Stone,
    Dirt,
    Grass,
    Sand,
    Water,
    Wood,
    Leaves,
    Bedrock,
    CoalOre,
    IronOre,
    DiamondOre,
}

/// Number of block kinds; the valid codes are `0..BLOCK_KIND_COUNT`.
pub const BLOCK_KIND_COUNT: u8 = 12;

/// The byte code of a kind: its position in the declaration of `BlockKind`.
pub open spec fn kind_code(k: BlockKind) -> u8 {
    match k {
        BlockKind::Air => 0,
        BlockKind::Stone => 1,
        BlockKind::Dirt => 2,
        BlockKind::Grass => 3,
        BlockKind::Sand => 4,
        BlockKind::Water => 5,
        BlockKind::Wood => 6,
        BlockKind::Leaves => 7,
        BlockKind::Bedrock => 8,
        BlockKind::CoalOre => 9,
        BlockKind::IronOre => 10,
        BlockKind::DiamondOre => 11,
    }
}

/// Whether a kind occupies its cell: everything but air and water.
pub open spec fn kind_is_solid(k: BlockKind) -> bool {
    !(k is Air || k is Water)
}

/// Whether light passes through a kind: the non-solid kinds, plus water and leaves.
pub open spec fn kind_is_transparent(k: BlockKind) -> bool {
    !kind_is_solid(k) || k is Water || k is Leaves
}

impl BlockKind {
    /// The byte code of this kind.
    pub fn to_u8(self) -> (r: u8)
        ensures
            r == kind_code(self),
            r < BLOCK_KIND_COUNT,
    {
        match self {
            BlockKind::Air => 0,
            BlockKind::Stone => 1,
            BlockKind::Dirt => 2,
            BlockKind::Grass => 3,
            BlockKind::Sand => 4,
            BlockKind::Water => 5,
            BlockKind::Wood => 6,
            BlockKind::Leaves => 7,
            BlockKind::Bedrock => 8,
            BlockKind::CoalOre => 9,
            BlockKind::IronOre => 10,
            BlockKind::DiamondOre => 11,
        }
    }

    /// The kind with the given byte code; `Err(())` for a code of no kind.
    pub fn try_from_u8(value: u8) -> (r: Result<BlockKind, ()>)
        ensures
            r is Ok <==> value < BLOCK_KIND_COUNT,
            r matches Ok(k) ==> kind_code(k) == value,
    {
        match value {
            0 => Ok(BlockKind::Air),
            1 => Ok(BlockKind::Stone),
            2 => Ok(BlockKind::Dirt),
            3 => Ok(BlockKind::Grass),
            4 => Ok(BlockKind::Sand),
            5 => Ok(BlockKind::Water),
            6 => Ok(BlockKind::Wood),
            7 => Ok(BlockKind::Leaves),
            8 => Ok(BlockKind::Bedrock),
            9 => Ok(BlockKind::CoalOre),
            10 => Ok(BlockKind::IronOre),
            11 => Ok(BlockKind::DiamondOre),
            _ => Err(()),
        }
    }
}

/// Decoding the code of a kind gives the kind back, and two kinds with the
/// same code are the same kind.
pub proof fn lemma_kind_code_round_trip(k: BlockKind, j: BlockKind)
    ensures
        kind_code(k) < BLOCK_KIND_COUNT,
        kind_code(k) == kind_code(j) ==> k == j,
{
}

/// One world cell.
#[derive(Debug, Clone, Copy, PartialEq, Eq, Hash, Structural)]
pub struct Block {
    pub kind: BlockKind,
}

impl Default for Block {
    /// The empty cell: air.
    fn default() -> (r: Self)
        ensures
            r.kind == BlockKind::Air,
    {
        Block { kind: BlockKind::Air }
    }
}

impl Block {
    /// Whether the block occupies its cell (everything but air and water).
    pub fn is_solid(&self) -> (r: bool)
        ensures
            r == kind_is_solid(self.kind),
    {
        matches!(
            self.kind,
            BlockKind::Stone | BlockKind::Dirt | BlockKind::Grass | BlockKind::Sand | BlockKind::Wood
                | BlockKind::Leaves | BlockKind::Bedrock | BlockKind::CoalOre | BlockKind::IronOre
                | BlockKind::DiamondOre
        )
    }

    /// Whether light passes through the block: non-solid blocks, water and leaves.
    pub fn is_transparent(&self) -> (r: bool)
        ensures
            r == kind_is_transparent(self.kind),
    {
        !self.is_solid() || matches!(self.kind, BlockKind::Water | BlockKind::Leaves)
    }
}

/// The only blocks that are both solid and transparent are leaves; every
/// non-solid block is transparent.
pub proof fn lemma_solid_transparent(k: BlockKind)
    ensures
        !kind_is_solid(k) ==> kind_is_transparent(k),
        kind_is_solid(k) && kind_is_transparent(k) <==> k == BlockKind::Leaves,
        !kind_is_solid(k) <==> (k == BlockKind::Air || k == BlockKind::Water),
{
}

} // verus!
