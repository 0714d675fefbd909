use vstd::prelude::*;

verus! {

/// The map key of a chunk position: the three coordinates reinterpreted as
/// unsigned 32-bit values, `x` shifted into the upper half, `y` shifted by
/// 16 bits, and all three or-ed together.
pub open spec fn chunk_key(cx: i32, cy: i32, cz: i32) -> u64 {
    ((cx as u32 as u64) << 32u64) | ((cy as u32 as u64) << 16u64) | (cz as u32 as u64)
}

/// Convert 3D chunk coordinates to a 1D index.
pub fn chunk_pos_to_idx(cx: i32, cy: i32, cz: i32) -> (r: u64)
    ensures
        r == chunk_key(cx, cy, cz),
{
    let x: u64 = cx as u32 as u64;
    let y: u64 = cy as u32 as u64;
    let z: u64 = cz as u32 as u64;
    (x << 32u64) | (y << 16u64) | z
}

/// On the ground layer (`y == 0`, the only layer that is streamed) the key
/// determines the horizontal chunk coordinates: different columns never
/// share a key.
pub proof fn lemma_chunk_key_injective_on_ground_layer(x1: i32, z1: i32, x2: i32, z2: i32)
    requires
        chunk_key(x1, 0, z1) == chunk_key(x2, 0, z2),
    ensures
        x1 == x2,
        z1 == z2,
{
    let a: u64 = x1 as u32 as u64;
    let b: u64 = z1 as u32 as u64;
    let c: u64 = x2 as u32 as u64;
    let d: u64 = z2 as u32 as u64;
    assert(a < 0x1_0000_0000 && b < 0x1_0000_0000 && c < 0x1_0000_0000 && d < 0x1_0000_0000);
    assert((0u32 as u64) == 0u64);
    assert(((a << 32u64) | (0u64 << 16u64) | b) == ((c << 32u64) | (0u64 << 16u64) | d) ==> a == c
        && b == d) by (bit_vector)
        requires
            a < 0x1_0000_0000,
            b < 0x1_0000_0000,
            c < 0x1_0000_0000,
            d < 0x1_0000_0000,
    ;
    assert(x1 as u32 == x2 as u32);
    assert(z1 as u32 == z2 as u32);
    assert(x1 == x2) by (bit_vector)
        requires
            x1 as u32 == x2 as u32,
    ;
    assert(z1 == z2) by (bit_vector)
        requires
            z1 as u32 == z2 as u32,
    ;
}

} // verus!
