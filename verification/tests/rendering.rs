use voxelverse::rendering::atlas::{
    build_atlas_rgba, same_tile, tile_cell, tile_index_for, BlockFace, TileIndex, ATLAS_COLS, ATLAS_H,
    ATLAS_ROWS, ATLAS_W, TILE_COUNT,
};
use voxelverse::rendering::culling::{is_face_visible, FACE_DIRECTIONS};
use voxelverse::rendering::greedy_meshing::generate_chunk_quads;
use voxelverse::rendering::texture_generator::{
    gen_bedrock, gen_dirt, gen_grass_side, gen_grass_top, gen_leaves, gen_sand, gen_stone, gen_water,
    gen_wood, generate_all_tiles, TILE_SIZE,
};
use voxelverse::utils::constants::CHUNK_VOLUME;
use voxelverse::world::block::{Block, BlockKind};
use voxelverse::world::chunk::{Chunk, ChunkPos};

fn checksum(b: &[u8]) -> u64 {
    b.iter().map(|v| *v as u64).sum::<u64>() % 1000003
}

fn pixel(b: &[u8], x: usize, y: usize) -> [u8; 4] {
    let i = (y * 64 + x) * 4;
    [b[i], b[i + 1], b[i + 2], b[i + 3]]
}

#[test]
fn texture_stone_and_dirt() {
    let s = gen_stone();
    assert_eq!(s.len(), (TILE_SIZE * TILE_SIZE * 4) as usize);
    assert_eq!(pixel(&s, 0, 0), [129, 129, 129, 255]);
    assert_eq!(pixel(&s, 21, 37), [131, 131, 131, 255]);
    assert_eq!(checksum(&s), 520954);
    let d = gen_dirt();
    assert_eq!(pixel(&d, 0, 0), [108, 68, 38, 255]);
    assert_eq!(pixel(&d, 21, 37), [94, 54, 24, 255]);
    // Noise byte 255 at (0, 4): the shift is capped at 35 / 2 = 17.
    assert_eq!(pixel(&d, 0, 4), [127, 87, 57, 255]);
    assert_eq!(checksum(&d), 944157);
}

#[test]
fn texture_grass() {
    let t = gen_grass_top();
    assert_eq!(pixel(&t, 0, 0), [25, 171, 25, 255]);
    assert_eq!(checksum(&t), 49482);
    let s = gen_grass_side();
    assert_eq!(pixel(&s, 0, 0), [37, 183, 37, 255]);
    assert_eq!(pixel(&s, 21, 37), [96, 56, 26, 255]);
    assert_eq!(checksum(&s), 956749);
}

#[test]
fn texture_sand_water_wood() {
    let s = gen_sand();
    assert_eq!(pixel(&s, 1, 0), [215, 205, 115, 255]);
    assert_eq!(checksum(&s), 294925);
    let w = gen_water();
    assert_eq!(pixel(&w, 0, 0), [35, 85, 225, 200]);
    assert_eq!(pixel(&w, 21, 37), [26, 74, 206, 200]);
    assert!(w.chunks(4).all(|p| p[3] == 200));
    assert_eq!(checksum(&w), 163626);
    let d = gen_wood();
    assert_eq!(pixel(&d, 21, 37), [116, 76, 36, 255]);
    assert_eq!(checksum(&d), 935693);
}

#[test]
fn texture_leaves_bedrock() {
    let l = gen_leaves();
    assert_eq!(pixel(&l, 0, 0), [10, 100, 10, 255]);
    assert_eq!(checksum(&l), 846557);
    let b = gen_bedrock();
    assert_eq!(pixel(&b, 1, 0), [31, 31, 31, 255]);
    assert_eq!(checksum(&b), 529073);
    assert!(b.chunks(4).all(|p| p[3] == 255));
}

#[test]
fn all_tiles_in_order() {
    let tiles = generate_all_tiles();
    assert_eq!(tiles[0], gen_stone());
    assert_eq!(tiles[3], gen_grass_side());
    assert_eq!(tiles[5], gen_water());
    assert_eq!(tiles[8], gen_bedrock());
}

#[test]
fn atlas_layout() {
    assert_eq!(TILE_COUNT, 12);
    assert_eq!(ATLAS_COLS, 4);
    assert_eq!(ATLAS_ROWS, 3);
    assert_eq!(ATLAS_W, 256);
    assert_eq!(ATLAS_H, 192);
    assert_eq!(tile_cell(0), (0, 0));
    assert_eq!(tile_cell(5), (1, 1));
    assert_eq!(tile_cell(11), (3, 2));
}

#[test]
fn face_tiles() {
    assert_eq!(tile_index_for(BlockKind::Grass, BlockFace::Top), TileIndex::GrassTop.to_u32());
    assert_eq!(tile_index_for(BlockKind::Grass, BlockFace::Bottom), 1);
    assert_eq!(tile_index_for(BlockKind::Grass, BlockFace::East), 3);
    assert_eq!(tile_index_for(BlockKind::Water, BlockFace::North), 5);
    assert_eq!(tile_index_for(BlockKind::DiamondOre, BlockFace::Top), 0);
    assert_eq!(tile_index_for(BlockKind::Bedrock, BlockFace::West), 8);
    assert!(same_tile(BlockKind::Stone, BlockFace::Top, BlockKind::CoalOre, BlockFace::South));
    assert!(same_tile(BlockKind::Grass, BlockFace::Bottom, BlockKind::Dirt, BlockFace::Top));
    assert!(!same_tile(BlockKind::Grass, BlockFace::Top, BlockKind::Grass, BlockFace::North));
}

#[test]
fn atlas_pixels() {
    let tiles = generate_all_tiles();
    let atlas = build_atlas_rgba(&tiles);
    assert_eq!(atlas.len(), 256 * 192 * 4);
    // tile 5 (water) sits in column 1, row 1
    let ax = 64 + 21;
    let ay = 64 + 37;
    let i = (ay * 256 + ax) * 4;
    assert_eq!(&atlas[i..i + 4], &pixel(&tiles[5], 21, 37)[..]);
    // tile 0 at the origin
    assert_eq!(&atlas[0..4], &tiles[0][0..4]);
    // empty cell (slot 9, column 1 of row 2)
    let j = ((128 + 3) * 256 + 64 + 3) * 4;
    assert_eq!(&atlas[j..j + 4], &[0, 0, 0, 0]);
}

fn chunk_with(cells: &[((usize, usize, usize), BlockKind)]) -> Chunk {
    let mut c = Chunk::new(ChunkPos::new(0, 0, 0), vec![Block::default(); CHUNK_VOLUME]);
    for ((x, y, z), k) in cells {
        c.set_block(*x, *y, *z, Block { kind: *k });
    }
    c
}

#[test]
fn face_visibility() {
    let c = chunk_with(&[((5, 5, 5), BlockKind::Stone), ((5, 6, 5), BlockKind::Leaves), ((6, 5, 5), BlockKind::Water)]);
    let stone = Block { kind: BlockKind::Stone };
    let leaves = Block { kind: BlockKind::Leaves };
    assert!(is_face_visible(&c, stone, -1, 5, 5));
    assert!(is_face_visible(&c, stone, 5, 256, 5));
    assert!(!is_face_visible(&c, stone, 5, 6, 5));
    assert!(is_face_visible(&c, leaves, 5, 6, 5));
    assert!(is_face_visible(&c, stone, 6, 5, 5));
    assert!(!is_face_visible(&c, leaves, 5, 5, 5));
    assert_eq!(FACE_DIRECTIONS[2], (0, 1, 0));
}

#[test]
fn quads_single_block() {
    let c = chunk_with(&[((3, 10, 4), BlockKind::Dirt)]);
    let q = generate_chunk_quads(&c);
    assert_eq!(q.len(), 6);
    for (k, quad) in q.iter().enumerate() {
        assert_eq!(quad.position, (3, 10, 4));
        assert_eq!(quad.normal, FACE_DIRECTIONS[k]);
        assert_eq!(quad.size, (1, 1));
        assert_eq!(quad.block_kind, BlockKind::Dirt);
    }
}

#[test]
fn quads_hide_shared_faces() {
    let c = chunk_with(&[((3, 10, 4), BlockKind::Stone), ((4, 10, 4), BlockKind::Stone)]);
    let q = generate_chunk_quads(&c);
    assert_eq!(q.len(), 10);
    assert_eq!(q[0].position, (3, 10, 4));
    assert_eq!(q[0].normal, (-1, 0, 0));
    assert_eq!(q[5].position, (4, 10, 4));
    assert_eq!(q[5].normal, (1, 0, 0));
    let l = chunk_with(&[((3, 10, 4), BlockKind::Leaves), ((4, 10, 4), BlockKind::Leaves)]);
    assert_eq!(generate_chunk_quads(&l).len(), 12);
    let corner = chunk_with(&[((0, 0, 0), BlockKind::Bedrock)]);
    assert_eq!(generate_chunk_quads(&corner).len(), 6);
}
