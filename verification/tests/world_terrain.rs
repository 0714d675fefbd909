use voxelverse::utils::constants::CHUNK_VOLUME;
use voxelverse::world::block::{Block, BlockKind};
use voxelverse::world::chunk::ChunkPos;
use voxelverse::world::generator::{choose_tree, generate_chunk, tree_columns, tree_site_hash, TreeSite};
use voxelverse::world::terrain::{
    block_at, cave_possible, is_spawn_area, natural_block_at, spawn_block_at, tree_hash_selects,
};
use voxelverse::world::tree::{oak_tree_blocks, pine_tree_blocks};
use voxelverse::world::world_manager::chunks_to_stream;
use voxelverse::utils::math::chunk_pos_to_idx;

#[test]
fn spawn_area_radius() {
    assert!(is_spawn_area(0, 0));
    assert!(is_spawn_area(40, 0));
    assert!(is_spawn_area(24, 32));
    assert!(!is_spawn_area(41, 0));
    assert!(!is_spawn_area(30, 30));
}

#[test]
fn cave_band() {
    assert!(!cave_possible(0));
    assert!(!cave_possible(1));
    assert!(cave_possible(2));
    assert!(cave_possible(57));
    assert!(!cave_possible(58));
}

#[test]
fn spawn_layers() {
    assert_eq!(spawn_block_at(0, 66).kind, BlockKind::Bedrock);
    assert_eq!(spawn_block_at(67, 66).kind, BlockKind::Air);
    assert_eq!(spawn_block_at(66, 66).kind, BlockKind::Grass);
    assert_eq!(spawn_block_at(62, 66).kind, BlockKind::Dirt);
    assert_eq!(spawn_block_at(61, 66).kind, BlockKind::Stone);
}

#[test]
fn natural_layers() {
    assert_eq!(natural_block_at(90, 80, false, None).kind, BlockKind::Air);
    assert_eq!(natural_block_at(80, 80, true, None).kind, BlockKind::Grass);
    assert_eq!(natural_block_at(64, 64, false, None).kind, BlockKind::Sand);
    assert_eq!(natural_block_at(76, 80, false, None).kind, BlockKind::Dirt);
    assert_eq!(natural_block_at(60, 64, false, None).kind, BlockKind::Sand);
    assert_eq!(natural_block_at(75, 80, false, None).kind, BlockKind::Stone);
    assert_eq!(natural_block_at(40, 80, true, None).kind, BlockKind::Air);
    // Above the cave band (y > 57) the cave noise carves nothing.
    assert_eq!(natural_block_at(75, 80, true, None).kind, BlockKind::Stone);
    assert_eq!(natural_block_at(58, 80, true, None).kind, BlockKind::Stone);
    assert_eq!(natural_block_at(57, 80, true, None).kind, BlockKind::Air);
    assert_eq!(natural_block_at(1, 80, true, None).kind, BlockKind::Stone);
    assert_eq!(natural_block_at(20, 80, false, Some(BlockKind::IronOre)).kind, BlockKind::IronOre);
}

#[test]
fn block_at_dispatch() {
    assert_eq!(block_at(500, 0, 500, 80, true, None).kind, BlockKind::Bedrock);
    assert_eq!(block_at(500, -4, 500, 80, false, None).kind, BlockKind::Bedrock);
    // The floor is bedrock however far out the column is.
    assert_eq!(block_at(50000, 0, 0, i32::MIN, true, None).kind, BlockKind::Bedrock);
    assert_eq!(block_at(i32::MAX, -1, i32::MIN, 0, false, None).kind, BlockKind::Bedrock);
    assert_eq!(block_at(0, 66, 0, 66, false, None).kind, BlockKind::Grass);
    assert_eq!(block_at(500, 80, 500, 80, false, None).kind, BlockKind::Grass);
    assert_eq!(block_at(500, 40, 500, 80, true, None).kind, BlockKind::Air);
    // caves are not carved in the spawn area
    assert_eq!(block_at(3, 40, 3, 66, true, None).kind, BlockKind::Stone);
}

#[test]
fn tree_hash_columns() {
    let picked: Vec<i32> = (-20..40).filter(|x| tree_hash_selects(*x, 3)).collect();
    assert_eq!(picked, vec![-11, -3, 1]);
}

#[test]
fn site_hash_values() {
    assert_eq!(tree_site_hash(10, -3), 31588949);
    assert_eq!(tree_site_hash(-7, 11), 92740908);
    assert_eq!(tree_site_hash(0, 0), 0);
    assert_eq!(tree_site_hash(3, 4), 32222545);
}

#[test]
fn tree_choice_by_biome() {
    assert_eq!(choose_tree(7, true, false).len(), pine_tree_blocks(10).len());
    assert_eq!(choose_tree(4, false, true).len(), oak_tree_blocks(6).len());
    assert_eq!(choose_tree(5, false, true).len(), pine_tree_blocks(8).len());
    assert_eq!(choose_tree(5, false, false).len(), oak_tree_blocks(6).len());
}

#[test]
fn border_columns() {
    let cols = tree_columns(ChunkPos::new(2, 0, -1));
    assert_eq!(cols.len(), 26 * 26);
    assert_eq!(cols[0], (27, -21));
    assert_eq!(cols[1], (28, -21));
    assert_eq!(cols[26], (27, -20));
    assert_eq!(cols[675], (52, 4));
}

#[test]
fn trees_fill_only_air() {
    let mut terrain = vec![Block::default(); CHUNK_VOLUME];
    // a stone cell inside the crown of the tree below
    let stone_idx = 72 * 256 + 4 * 16 + 3;
    terrain[stone_idx] = Block { kind: BlockKind::Stone };
    let sites = vec![
        TreeSite { wx: 3, wz: 4, surface_y: 70, mountains_dominate: false, hills_over_plains: false },
        // beach: no tree
        TreeSite { wx: 8, wz: 8, surface_y: 64, mountains_dominate: false, hills_over_plains: false },
    ];
    let c = generate_chunk(ChunkPos::new(0, 0, 0), terrain, &sites);
    assert!(c.needs_remesh);
    assert_eq!(c.blocks[stone_idx].kind, BlockKind::Stone);
    // the oak of height 5 (hash 32222545 % 3 == 1) has 76 blocks, one hidden by the stone
    let wood = c.blocks.iter().filter(|b| b.kind == BlockKind::Wood).count();
    let leaves = c.blocks.iter().filter(|b| b.kind == BlockKind::Leaves).count();
    assert_eq!(wood, 4);
    assert_eq!(leaves, 71);
    assert_eq!(c.get_block(3, 71, 4).kind, BlockKind::Wood);
    assert_eq!(c.get_block(8, 65, 8).kind, BlockKind::Air);
}

#[test]
fn trees_clipped_at_chunk_border() {
    let terrain = vec![Block::default(); CHUNK_VOLUME];
    let sites = vec![TreeSite { wx: -2, wz: 5, surface_y: 70, mountains_dominate: false, hills_over_plains: false }];
    let c = generate_chunk(ChunkPos::new(0, 0, 0), terrain, &sites);
    let placed = c.blocks.iter().filter(|b| b.kind != BlockKind::Air).count();
    assert_eq!(placed, 9);
}

#[test]
fn streaming_requests_missing_columns() {
    let mut loaded: std::collections::HashMap<u64, ()> = std::collections::HashMap::new();
    let all = chunks_to_stream(0, 0, 4, &loaded);
    assert_eq!(all.len(), 81);
    assert_eq!(all[0], ChunkPos::new(-4, 0, -4));
    assert_eq!(all[1], ChunkPos::new(-4, 0, -3));
    assert_eq!(all[80], ChunkPos::new(4, 0, 4));
    loaded.insert(chunk_pos_to_idx(0, 0, 0), ());
    loaded.insert(chunk_pos_to_idx(-4, 0, -4), ());
    let some = chunks_to_stream(0, 0, 4, &loaded);
    assert_eq!(some.len(), 79);
    assert!(!some.contains(&ChunkPos::new(0, 0, 0)));
    for p in &all {
        loaded.insert(chunk_pos_to_idx(p.x, p.y, p.z), ());
    }
    assert!(chunks_to_stream(0, 0, 4, &loaded).is_empty());
    assert_eq!(chunks_to_stream(1, 0, 4, &loaded).len(), 9);
    // The square may reach the last i32 coordinate.
    let edge = chunks_to_stream(i32::MAX - 1, i32::MAX - 1, 1, &loaded);
    assert_eq!(edge.len(), 9);
    assert_eq!(edge[8], ChunkPos::new(i32::MAX, 0, i32::MAX));
}
