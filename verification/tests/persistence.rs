use voxelverse::utils::constants::CHUNK_VOLUME;
use voxelverse::world::block::{Block, BlockKind};
use voxelverse::world::chunk::{Chunk, ChunkPos};
use voxelverse::world::save::{chunk_file_name, decode_chunk, encode_chunk, ChunkData};

fn sample_chunk() -> Chunk {
    let mut blocks = vec![Block::default(); CHUNK_VOLUME];
    for i in 0..CHUNK_VOLUME {
        let code = (i * 7 % 12) as u8;
        blocks[i] = Block { kind: BlockKind::try_from_u8(code).unwrap() };
    }
    Chunk::new(ChunkPos::new(-3, 0, 17), blocks)
}

#[test]
fn record_of_chunk() {
    let c = sample_chunk();
    let d = ChunkData::from_chunk(&c);
    assert_eq!(d.position, [-3, 0, 17]);
    assert_eq!(d.blocks.len(), CHUNK_VOLUME);
    assert_eq!(d.blocks[1], 7);
    assert_eq!(d.blocks[2], 2);
}

#[test]
fn record_to_chunk_round_trip() {
    let c = sample_chunk();
    let back = ChunkData::from_chunk(&c).to_chunk().unwrap();
    assert_eq!(back.position, c.position);
    assert_eq!(back.blocks, c.blocks);
    assert!(back.needs_remesh);
}

#[test]
fn record_rejects_bad_input() {
    let short = ChunkData { position: [0, 0, 0], blocks: vec![0; CHUNK_VOLUME - 1] };
    assert!(short.to_chunk().is_none());
    let mut bad = vec![1u8; CHUNK_VOLUME];
    bad[100] = 12;
    let d = ChunkData { position: [0, 0, 0], blocks: bad };
    assert!(d.to_chunk().is_none());
}

#[test]
fn record_bytes_layout() {
    let d = ChunkData { position: [1, -2, 258], blocks: vec![5, 6, 7] };
    let bytes = d.to_bytes();
    assert_eq!(
        bytes,
        vec![1, 0, 0, 0, 254, 255, 255, 255, 2, 1, 0, 0, 3, 0, 0, 0, 0, 0, 0, 0, 5, 6, 7]
    );
    let direct = bincode::serialize(&([1i32, -2, 258], vec![5u8, 6, 7])).unwrap();
    assert_eq!(bytes, direct);
}

#[test]
fn record_bytes_parse() {
    let mut bytes = vec![1, 0, 0, 0, 254, 255, 255, 255, 2, 1, 0, 0, 3, 0, 0, 0, 0, 0, 0, 0, 5, 6, 7];
    let d = ChunkData::from_bytes(&bytes).unwrap();
    assert_eq!(d.position, [1, -2, 258]);
    assert_eq!(d.blocks, vec![5, 6, 7]);
    bytes.push(99);
    assert_eq!(ChunkData::from_bytes(&bytes).unwrap().blocks, vec![5, 6, 7]);
    assert!(ChunkData::from_bytes(&bytes[..22]).is_none());
    assert!(ChunkData::from_bytes(&bytes[..10]).is_none());
}

#[test]
fn save_load_round_trip() {
    let c = sample_chunk();
    let bytes = encode_chunk(&c);
    assert_eq!(bytes.len(), 20 + CHUNK_VOLUME);
    let back = decode_chunk(&bytes).unwrap();
    assert_eq!(back.position, c.position);
    assert_eq!(back.blocks, c.blocks);
}

#[test]
fn load_rejects_foreign_bytes() {
    assert!(decode_chunk(&[1, 2, 3]).is_none());
    let d = ChunkData { position: [0, 0, 0], blocks: vec![0; 10] };
    assert!(decode_chunk(&d.to_bytes()).is_none());
    let mut c = encode_chunk(&sample_chunk());
    c[30] = 200;
    assert!(decode_chunk(&c).is_none());
}

#[test]
fn chunk_file_names() {
    assert_eq!(chunk_file_name(ChunkPos::new(3, 0, -12)), "3_0_-12.bin");
    assert_eq!(chunk_file_name(ChunkPos::new(i32::MIN, 0, 0)), "-2147483648_0_0.bin");
    assert_eq!(chunk_file_name(ChunkPos::new(i32::MAX, -1, 10)), "2147483647_-1_10.bin");
    assert_eq!(chunk_file_name(ChunkPos::new(0, 9, -100)), "0_9_-100.bin");
}
