use vstd::prelude::*;

verus! {

/// Horizontal chunk edge length, in blocks.
pub const CHUNK_SIZE: usize = 16;

/// Vertical chunk extent, in blocks.
pub const CHUNK_HEIGHT: usize = 256;

/// Number of blocks held by one chunk (`CHUNK_SIZE * CHUNK_HEIGHT * CHUNK_SIZE`).
pub const CHUNK_VOLUME: usize = 65536;

/// Chunks streamed in each horizontal direction around the player.
pub const RENDER_DISTANCE: i32 = 4;

/// The volume is the product of the three chunk extents.
pub proof fn lemma_chunk_volume()
    ensures
        CHUNK_VOLUME == CHUNK_SIZE * CHUNK_HEIGHT * CHUNK_SIZE,
{
}

} // verus!
