use voxelverse::utils::constants::{CHUNK_HEIGHT, CHUNK_SIZE, CHUNK_VOLUME, RENDER_DISTANCE};
use voxelverse::utils::math::chunk_pos_to_idx;
use voxelverse::world::block::{Block, BlockKind};
use voxelverse::world::chunk::{Chunk, ChunkPos};

const ALL_KINDS: [BlockKind; 12] = [
    BlockKind::Air,
    BlockKind::Stone,
    BlockKind::Dirt,
    BlockKind::Grass,
    BlockKind::Sand,
    BlockKind::Water,
    BlockKind::Wood,
    BlockKind::Leaves,
    BlockKind::Bedrock,
    BlockKind::CoalOre,
    BlockKind::IronOre,
    BlockKind::DiamondOre,
];

fn air_chunk(pos: ChunkPos) -> Chunk {
    Chunk::new(pos, vec![Block::default(); CHUNK_VOLUME])
}

#[test]
fn constants_match_chunk_shape() {
    assert_eq!(CHUNK_SIZE, 16);
    assert_eq!(CHUNK_HEIGHT, 256);
    assert_eq!(CHUNK_VOLUME, CHUNK_SIZE * CHUNK_HEIGHT * CHUNK_SIZE);
    assert_eq!(RENDER_DISTANCE, 4);
}

#[test]
fn block_codes_round_trip() {
    for (i, k) in ALL_KINDS.iter().enumerate() {
        assert_eq!(k.to_u8(), i as u8);
        assert_eq!(BlockKind::try_from_u8(i as u8), Ok(*k));
    }
    assert_eq!(BlockKind::try_from_u8(12), Err(()));
    assert_eq!(BlockKind::try_from_u8(255), Err(()));
}

#[test]
fn solidity_and_transparency() {
    for k in ALL_KINDS {
        let b = Block { kind: k };
        let solid = !(k == BlockKind::Air || k == BlockKind::Water);
        assert_eq!(b.is_solid(), solid, "{:?}", k);
        let transparent = !solid || k == BlockKind::Water || k == BlockKind::Leaves;
        assert_eq!(b.is_transparent(), transparent, "{:?}", k);
    }
    assert!(Block { kind: BlockKind::Leaves }.is_solid());
    assert!(Block { kind: BlockKind::Leaves }.is_transparent());
    assert!(!Block { kind: BlockKind::Stone }.is_transparent());
}

#[test]
fn default_block_is_air() {
    assert_eq!(Block::default().kind, BlockKind::Air);
}

#[test]
fn block_index_layout() {
    assert_eq!(Chunk::block_index(0, 0, 0), 0);
    assert_eq!(Chunk::block_index(1, 2, 3), 2 * 256 + 3 * 16 + 1);
    assert_eq!(Chunk::block_index(15, 255, 15), CHUNK_VOLUME - 1);
}

#[test]
fn chunk_get_after_set() {
    let mut c = air_chunk(ChunkPos::new(1, 0, -2));
    assert!(c.needs_remesh);
    c.needs_remesh = false;
    c.set_block(3, 100, 7, Block { kind: BlockKind::Stone });
    assert!(c.needs_remesh);
    assert_eq!(c.get_block(3, 100, 7).kind, BlockKind::Stone);
    assert_eq!(c.get_block(3, 100, 8).kind, BlockKind::Air);
    assert_eq!(c.get_block(7, 100, 3).kind, BlockKind::Air);
    assert_eq!(c.position, ChunkPos::new(1, 0, -2));
}

#[test]
fn chunk_key_packs_coordinates() {
    assert_eq!(chunk_pos_to_idx(1, 0, 2), 4294967298);
    assert_eq!(chunk_pos_to_idx(-1, 0, 0), 18446744069414584320);
    assert_eq!(chunk_pos_to_idx(0, 1, 1), 65537);
    assert_eq!(chunk_pos_to_idx(0, -1, 0), 281474976645120);
    assert_eq!(chunk_pos_to_idx(-3, 0, -4), 18446744065119617020);
}

#[test]
fn chunk_key_distinct_on_ground_layer() {
    let mut keys = std::collections::HashSet::new();
    for x in -6..6 {
        for z in -6..6 {
            assert!(keys.insert(chunk_pos_to_idx(x, 0, z)));
        }
    }
}
