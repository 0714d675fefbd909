//! Procedural pixel-art block textures.
//!
//! Every tile is `TILE_SIZE × TILE_SIZE` RGBA pixels, stored row by row,
//! four bytes per pixel. Noise comes from the splitmix64 finalizer, so the
//! textures are the same on every platform; 4×4 cluster noise gives the
//! chunky pixel-art look, and each texture has its own seed.

use vstd::prelude::*;

verus! {

/// Edge length of a tile, in pixels.
pub const TILE_SIZE: u32 = 64;

/// Pixels per noise cluster edge.
pub const CLUSTER: u32 = 4;

/// Number of bytes in one tile.
pub const TILE_BYTES: usize = 16384;

// ── deterministic noise ──────────────────────────────────────────────────

/// `a * b` modulo 2^64.
pub open spec fn mul_wrap64(a: u64, b: u64) -> u64 {
    ((a as nat * b as nat) % 0x1_0000_0000_0000_0000) as u64
}

/// The splitmix64 finalizer.
pub open spec fn mix64(x: u64) -> u64 {
    let a = x ^ (x >> 30u64);
    let b = mul_wrap64(a, 0xbf58476d1ce4e5b9);
    let c = b ^ (b >> 27u64);
    let d = mul_wrap64(c, 0x94d049bb133111eb);
    d ^ (d >> 31u64)
}

/// Splitmix64 finalizer — bijective, avalanche-quality, branch-free.
fn hash64(x: u64) -> (r: u64)
    ensures
        r == mix64(x),
{
    let mut x: u64 = x;
    x = x ^ (x >> 30u64);
    x = x.wrapping_mul(0xbf58476d1ce4e5b9);
    x = x ^ (x >> 27u64);
    x = x.wrapping_mul(0x94d049bb133111eb);
    x = x ^ (x >> 31u64);
    x
}

/// The inverse of `mix64`: undo each xor-shift and multiply by the inverse
/// of each odd constant modulo 2^64.
pub open spec fn unmix64(h: u64) -> u64 {
    let d = h ^ (h >> 31u64) ^ (h >> 62u64);
    let c = mul_wrap64(d, 0x319642b2d24d8ec3);
    let b = c ^ (c >> 27u64) ^ (c >> 54u64);
    let a = mul_wrap64(b, 0x96de1b173f119089);
    a ^ (a >> 30u64) ^ (a >> 60u64)
}

proof fn lemma_xorshift_inverse(x: u64)
    ensures
        ({
            let y30 = x ^ (x >> 30u64);
            let y27 = x ^ (x >> 27u64);
            let y31 = x ^ (x >> 31u64);
            &&& (y30 ^ (y30 >> 30u64) ^ (y30 >> 60u64)) == x
            &&& (y27 ^ (y27 >> 27u64) ^ (y27 >> 54u64)) == x
            &&& (y31 ^ (y31 >> 31u64) ^ (y31 >> 62u64)) == x
        }),
{
    assert((x ^ (x >> 30u64)) ^ ((x ^ (x >> 30u64)) >> 30u64) ^ ((x ^ (x >> 30u64)) >> 60u64) == x)
        by (bit_vector);
    assert((x ^ (x >> 27u64)) ^ ((x ^ (x >> 27u64)) >> 27u64) ^ ((x ^ (x >> 27u64)) >> 54u64) == x)
        by (bit_vector);
    assert((x ^ (x >> 31u64)) ^ ((x ^ (x >> 31u64)) >> 31u64) ^ ((x ^ (x >> 31u64)) >> 62u64) == x)
        by (bit_vector);
}

proof fn lemma_mul_inverse(x: u64, c: u64, cinv: u64)
    requires
        (c as nat * cinv as nat) % 0x1_0000_0000_0000_0000 == 1,
    ensures
        mul_wrap64(mul_wrap64(x, c), cinv) == x,
{
    let m: nat = 0x1_0000_0000_0000_0000;
    let p: nat = x as nat * c as nat;
    vstd::arithmetic::div_mod::lemma_mul_mod_noop_left(p as int, cinv as int, m as int);
    assert(((p % m) * (cinv as nat)) % m == (p * (cinv as nat)) % m);
    assert(p * (cinv as nat) == x as nat * (c as nat * cinv as nat)) by (nonlinear_arith)
        requires
            p == x as nat * c as nat,
    ;
    vstd::arithmetic::div_mod::lemma_mul_mod_noop_right(x as int, (c as nat * cinv as nat) as int, m as int);
    assert((x as nat * ((c as nat * cinv as nat) % m)) % m == x as nat % m);
    assert(x as nat % m == x);
}

/// The splitmix64 finalizer is a bijection on 64-bit values: `unmix64`
/// undoes it, so different inputs always hash differently.
pub proof fn lemma_hash64_bijective(x: u64, y: u64)
    ensures
        unmix64(mix64(x)) == x,
        mix64(x) == mix64(y) ==> x == y,
{
    let a = x ^ (x >> 30u64);
    let b = mul_wrap64(a, 0xbf58476d1ce4e5b9);
    let c = b ^ (b >> 27u64);
    let d = mul_wrap64(c, 0x94d049bb133111eb);
    lemma_xorshift_inverse(x);
    lemma_xorshift_inverse(b);
    lemma_xorshift_inverse(d);
    assert((0xbf58476d1ce4e5b9nat * 0x96de1b173f119089nat) % 0x1_0000_0000_0000_0000 == 1);
    assert((0x94d049bb133111ebnat * 0x319642b2d24d8ec3nat) % 0x1_0000_0000_0000_0000 == 1);
    lemma_mul_inverse(c, 0x94d049bb133111eb, 0x319642b2d24d8ec3);
    lemma_mul_inverse(a, 0xbf58476d1ce4e5b9, 0x96de1b173f119089);
    if mix64(x) == mix64(y) {
        lemma_hash64_bijective_one(y);
    }
}

proof fn lemma_hash64_bijective_one(y: u64)
    ensures
        unmix64(mix64(y)) == y,
{
    let a = y ^ (y >> 30u64);
    let b = mul_wrap64(a, 0xbf58476d1ce4e5b9);
    let c = b ^ (b >> 27u64);
    let d = mul_wrap64(c, 0x94d049bb133111eb);
    lemma_xorshift_inverse(y);
    lemma_xorshift_inverse(b);
    lemma_xorshift_inverse(d);
    assert((0xbf58476d1ce4e5b9nat * 0x96de1b173f119089nat) % 0x1_0000_0000_0000_0000 == 1);
    assert((0x94d049bb133111ebnat * 0x319642b2d24d8ec3nat) % 0x1_0000_0000_0000_0000 == 1);
    lemma_mul_inverse(c, 0x94d049bb133111eb, 0x319642b2d24d8ec3);
    lemma_mul_inverse(a, 0xbf58476d1ce4e5b9, 0x96de1b173f119089);
}


/// 4×4 cluster noise: one byte per `CLUSTER × CLUSTER` block of pixels.
pub open spec fn cluster_noise_at(px: u32, py: u32, seed: u64) -> u8 {
    let x = mul_wrap64((px / CLUSTER) as u64, 0x9e3779b97f4a7c15);
    let y = mul_wrap64((py / CLUSTER) as u64, 0x6c62272e07bb0142);
    (mix64(seed ^ x ^ y) >> 56u64) as u8
}

/// Per-pixel noise: one byte per pixel.
pub open spec fn pixel_noise_at(px: u32, py: u32, seed: u64) -> u8 {
    let x = mul_wrap64(px as u64, 0x9e3779b97f4a7c15);
    let y = mul_wrap64(py as u64, 0x6c62272e07bb0142);
    (mix64(seed ^ x ^ y) >> 56u64) as u8
}

fn cluster_noise(px: u32, py: u32, seed: u64) -> (r: u8)
    ensures
        r == cluster_noise_at(px, py, seed),
{
    let x: u64 = ((px / CLUSTER) as u64).wrapping_mul(0x9e3779b97f4a7c15);
    let y: u64 = ((py / CLUSTER) as u64).wrapping_mul(0x6c62272e07bb0142);
    let h: u64 = hash64(seed ^ x ^ y);
    (h >> 56u64) as u8
}

fn pixel_noise(px: u32, py: u32, seed: u64) -> (r: u8)
    ensures
        r == pixel_noise_at(px, py, seed),
{
    let x: u64 = (px as u64).wrapping_mul(0x9e3779b97f4a7c15);
    let y: u64 = (py as u64).wrapping_mul(0x6c62272e07bb0142);
    let h: u64 = hash64(seed ^ x ^ y);
    (h >> 56u64) as u8
}

// ── colour helpers ───────────────────────────────────────────────────────

/// `v` clamped to `0..=255`.
pub open spec fn saturate(v: int) -> u8 {
    if v < 0 {
        0
    } else if v > 255 {
        255
    } else {
        v as u8
    }
}

fn sat(v: i32) -> (r: u8)
    ensures
        r == saturate(v as int),
{
    if v < 0 {
        0
    } else if v > 255 {
        255
    } else {
        v as u8
    }
}

/// The signed shift that `vary` applies for a noise byte: the byte scaled
/// to `0..=range`, minus half the range, and capped at half the range so
/// that the deviation stays within ±range/2 also for odd ranges.
pub open spec fn vary_delta(noise_byte: u8, range: int) -> int {
    let raw = noise_byte * range / 255 - range / 2;
    if raw > range / 2 {
        range / 2
    } else {
        raw
    }
}

/// An opaque pixel: every channel of `base` shifted by `vary_delta`.
pub open spec fn vary_pixel(b0: int, b1: int, b2: int, noise_byte: u8, range: int) -> Seq<u8> {
    let d = vary_delta(noise_byte, range);
    seq![saturate(b0 + d), saturate(b1 + d), saturate(b2 + d), 255u8]
}

/// Shift every channel of `base` by the same signed delta derived from
/// `noise_byte`.  `range` controls the maximum deviation (±range/2).
/// Returns a full RGBA pixel with alpha = 255.
fn vary(base: [u8; 3], noise_byte: u8, range: i32) -> (r: [u8; 4])
    requires
        0 <= range <= 1000,
    ensures
        r@ == vary_pixel(base[0] as int, base[1] as int, base[2] as int, noise_byte, range as int),
{
    assert(noise_byte * range <= 255 * 1000) by (nonlinear_arith)
        requires
            0 <= range <= 1000,
            noise_byte <= 255,
    ;
    assert(0 <= noise_byte * range) by (nonlinear_arith)
        requires
            0 <= range,
    ;
    let half: i32 = range / 2;
    let raw: i32 = noise_byte as i32 * range / 255 - half;
    let d: i32 = if raw > half {
        half
    } else {
        raw
    };
    let r = [sat(base[0] as i32 + d), sat(base[1] as i32 + d), sat(base[2] as i32 + d), 255];
    assert(r@ =~= vary_pixel(base[0] as int, base[1] as int, base[2] as int, noise_byte, range as int));
    r
}

/// The deviation that `vary` applies is at most half the range either way,
/// before clamping, and the pixel is always opaque.
pub proof fn lemma_vary_bounds(b0: int, b1: int, b2: int, noise_byte: u8, range: int)
    requires
        0 <= range,
    ensures
        -(range / 2) <= vary_delta(noise_byte, range) <= range / 2,
        2 * vary_delta(noise_byte, range) <= range,
        -range <= 2 * vary_delta(noise_byte, range),
        vary_pixel(b0, b1, b2, noise_byte, range)[3] == 255,
        vary_pixel(b0, b1, b2, noise_byte, range).len() == 4,
{
    let q = noise_byte * range / 255;
    assert(0 <= q <= range) by (nonlinear_arith)
        requires
            q == noise_byte * range / 255,
            0 <= range,
            0 <= noise_byte <= 255,
    ;
}

// ── the textures ─────────────────────────────────────────────────────────

/// Brightness offset of water row `y`: `18 · sin(2π · y / 8)` truncated
/// toward zero, a wave with a period of eight rows.
pub open spec fn water_wave(y: int) -> int {
    let k = y % 8;
    if k == 0 || k == 4 {
        0
    } else if k == 1 || k == 3 {
        12
    } else if k == 2 {
        18
    } else if k == 6 {
        -18
    } else {
        -12
    }
}

/// Integer division rounding toward zero, as Rust's `/` on signed integers.
pub open spec fn div_toward_zero(a: int, b: int) -> int {
    if a >= 0 {
        a / b
    } else {
        -((-a) / b)
    }
}

/// Height of the green band at the top of the grass side texture.
pub open spec fn grass_cap() -> int {
    TILE_SIZE as int / 6
}

/// Row offset of the wood grain in row `y`.
pub open spec fn wood_wobble(y: u32) -> int {
    pixel_noise_at(0, y, 0x1357_2468_9ABC_DEF0) / 16 - 8
}

/// Whether pixel `(x, y)` of the wood texture lies on a dark grain line:
/// grain lines are two pixels wide every eight, shifted per row.
pub open spec fn wood_on_grain(x: u32, y: u32) -> bool {
    ((x + wood_wobble(y)) % 64) % 8 < 2
}

/// The RGBA bytes of pixel `(x, y)` of texture `t`, where textures are
/// numbered stone, dirt, grass top, grass side, sand, water, wood, leaves,
/// bedrock.
pub open spec fn texture_pixel(t: int, x: u32, y: u32) -> Seq<u8> {
    if t == 0 {
        vary_pixel(120, 120, 120, cluster_noise_at(x, y, 0xAAAA_1111_BBBB_2222), 40)
    } else if t == 1 {
        vary_pixel(110, 70, 40, cluster_noise_at(x, y, 0xCCCC_3333_DDDD_4444), 35)
    } else if t == 2 {
        vary_pixel(34, 180, 34, cluster_noise_at(x, y, 0xEEEE_5555_FFFF_6666), 30)
    } else if t == 3 {
        if y < grass_cap() {
            vary_pixel(34, 180, 34, cluster_noise_at(x, y, 0xABCD_1234_EF01_5678), 25)
        } else {
            vary_pixel(110, 70, 40, cluster_noise_at(x, y, 0xCCCC_3333_DDDD_4444), 30)
        }
    } else if t == 4 {
        let v = (cluster_noise_at(x, y, 0x1122_AABB_3344_CCDD) / 2 + pixel_noise_at(
            x,
            y,
            0x5566_EEFF_7788_0011,
        ) / 2) as u8;
        vary_pixel(220, 210, 120, v, 25)
    } else if t == 5 {
        let wave = water_wave(y as int);
        let n = cluster_noise_at(x, y, 0xBEEF_CAFE_DEAD_BEEF) * 14 / 255 - 7;
        seq![
            saturate(30 + div_toward_zero(wave, 5) + n),
            saturate(80 + div_toward_zero(wave, 3) + n),
            saturate(220 + wave + n),
            200u8,
        ]
    } else if t == 6 {
        let dark = if wood_on_grain(x, y) { 28int } else { 0int };
        vary_pixel(
            saturate(120 - dark) as int,
            saturate(80 - dark) as int,
            saturate(40 - dark) as int,
            cluster_noise_at(x, y, 0xAABB_CCDD_EEFF_0011),
            18,
        )
    } else if t == 7 {
        let v = cluster_noise_at(x, y, 0xFEED_FACE_C0FF_EEEE);
        if v < 90 {
            vary_pixel(20, 110, 20, v, 20)
        } else {
            vary_pixel(34, 155, 34, v, 20)
        }
    } else {
        let v = (cluster_noise_at(x, y, 0x0000_DEAD_BEEF_0000) / 2 + pixel_noise_at(
            x,
            y,
            0x1111_2222_3333_4444,
        ) / 2) as u8;
        vary_pixel(40, 40, 40, v, 30)
    }
}

/// The bytes of texture `t`: pixel `(x, y)` occupies bytes
/// `4 * (y * TILE_SIZE + x)` to `4 * (y * TILE_SIZE + x) + 3`.
pub open spec fn texture_bytes(t: int) -> Seq<u8> {
    Seq::new(
        TILE_BYTES as nat,
        |i: int| texture_pixel(t, ((i / 4) % 64) as u32, ((i / 4) / 64) as u32)[i % 4],
    )
}

/// The wave of water row `y` (see `water_wave`).
fn water_row_wave(y: u32) -> (r: i32)
    ensures
        r == water_wave(y as int),
{
    let k: u32 = y % 8;
    if k == 0 || k == 4 {
        0
    } else if k == 1 || k == 3 {
        12
    } else if k == 2 {
        18
    } else if k == 6 {
        -18
    } else {
        -12
    }
}

/// `a / b` rounded toward zero, for a positive divisor.
fn div_trunc(a: i32, b: i32) -> (r: i32)
    requires
        b > 0,
        a > i32::MIN,
    ensures
        r == div_toward_zero(a as int, b as int),
{
    if a >= 0 {
        a / b
    } else {
        -((-a) / b)
    }
}

/// The RGBA bytes of pixel `(x, y)` of texture `t`.
fn texture_pixel_of(t: usize, x: u32, y: u32) -> (r: [u8; 4])
    requires
        t < 9,
        x < TILE_SIZE,
        y < TILE_SIZE,
    ensures
        r@ == texture_pixel(t as int, x, y),
{
    if t == 0 {
        vary([120, 120, 120], cluster_noise(x, y, 0xAAAA_1111_BBBB_2222), 40)
    } else if t == 1 {
        vary([110, 70, 40], cluster_noise(x, y, 0xCCCC_3333_DDDD_4444), 35)
    } else if t == 2 {
        vary([34, 180, 34], cluster_noise(x, y, 0xEEEE_5555_FFFF_6666), 30)
    } else if t == 3 {
        let cap: u32 = TILE_SIZE / 6;
        if y < cap {
            vary([34, 180, 34], cluster_noise(x, y, 0xABCD_1234_EF01_5678), 25)
        } else {
            vary([110, 70, 40], cluster_noise(x, y, 0xCCCC_3333_DDDD_4444), 30)
        }
    } else if t == 4 {
        let v: u8 = cluster_noise(x, y, 0x1122_AABB_3344_CCDD) / 2 + pixel_noise(
            x,
            y,
            0x5566_EEFF_7788_0011,
        ) / 2;
        vary([220, 210, 120], v, 25)
    } else if t == 5 {
        let wave: i32 = water_row_wave(y);
        let c: u8 = cluster_noise(x, y, 0xBEEF_CAFE_DEAD_BEEF);
        assert(c * 14 <= 255 * 14) by (nonlinear_arith)
            requires
                c <= 255,
        ;
        let n: i32 = c as i32 * 14 / 255 - 7;
        let r = [
            sat(30 + div_trunc(wave, 5) + n),
            sat(80 + div_trunc(wave, 3) + n),
            sat(220 + wave + n),
            200,
        ];
        assert(r@ =~= texture_pixel(t as int, x, y));
        r
    } else if t == 6 {
        let wobble: i32 = pixel_noise(0, y, 0x1357_2468_9ABC_DEF0) as i32 / 16 - 8;
        let g: i32 = x as i32 + wobble;
        let grain_x: u32 = if g < 0 {
            (g + 64) as u32
        } else if g >= 64 {
            (g - 64) as u32
        } else {
            g as u32
        };
        assert(grain_x as int == (x + wood_wobble(y)) % 64);
        let on_grain: bool = (grain_x % 8) < 2;
        let dark: i32 = if on_grain { 28 } else { 0 };
        let base: [u8; 3] = [sat(120 - dark), sat(80 - dark), sat(40 - dark)];
        vary(base, cluster_noise(x, y, 0xAABB_CCDD_EEFF_0011), 18)
    } else if t == 7 {
        let v: u8 = cluster_noise(x, y, 0xFEED_FACE_C0FF_EEEE);
        let base: [u8; 3] = if v < 90 {
            [20u8, 110, 20]
        } else {
            [34, 155, 34]
        };
        vary(base, v, 20)
    } else {
        let v: u8 = cluster_noise(x, y, 0x0000_DEAD_BEEF_0000) / 2 + pixel_noise(
            x,
            y,
            0x1111_2222_3333_4444,
        ) / 2;
        vary([40, 40, 40], v, 30)
    }
}

// ── internal tile utilities ──────────────────────────────────────────────

/// A tile of transparent black pixels.
fn blank_tile() -> (r: Vec<u8>)
    ensures
        r@ == Seq::new(TILE_BYTES as nat, |i: int| 0u8),
{
    let r = vec![0u8; (TILE_SIZE * TILE_SIZE * 4) as usize];
    assert(r@ =~= Seq::new(TILE_BYTES as nat, |i: int| 0u8));
    r
}

/// Write `pixel` at `(x, y)` of a tile buffer.
fn put(buf: &mut Vec<u8>, x: u32, y: u32, pixel: [u8; 4])
    requires
        old(buf)@.len() == TILE_BYTES,
        x < TILE_SIZE,
        y < TILE_SIZE,
    ensures
        ({
            let i = (y * 64 + x) * 4;
            final(buf)@ == old(buf)@.update(i, pixel[0]).update(i + 1, pixel[1]).update(i + 2, pixel[2]).update(
                i + 3,
                pixel[3],
            )
        }),
{
    let i: usize = ((y * TILE_SIZE + x) * 4) as usize;
    buf.set(i, pixel[0]);
    buf.set(i + 1, pixel[1]);
    buf.set(i + 2, pixel[2]);
    buf.set(i + 3, pixel[3]);
}

proof fn lemma_tile_offset(x: int, y: int, c: int)
    requires
        0 <= x < 64,
        0 <= y < 64,
        0 <= c < 4,
    ensures
        ({
            let i = (y * 64 + x) * 4 + c;
            &&& 0 <= i < TILE_BYTES
            &&& i / 4 == y * 64 + x
            &&& i % 4 == c
            &&& (i / 4) % 64 == x
            &&& (i / 4) / 64 == y
        }),
{
    let i = (y * 64 + x) * 4 + c;
    assert(0 <= i < 16384 && i / 4 == y * 64 + x && i % 4 == c && (i / 4) % 64 == x && (i / 4) / 64 == y)
        by (nonlinear_arith)
        requires
            i == (y * 64 + x) * 4 + c,
            0 <= x < 64,
            0 <= y < 64,
            0 <= c < 4,
    ;
}

/// Draw every pixel of texture `t`, row by row.
fn render_texture(t: usize) -> (r: Vec<u8>)
    requires
        t < 9,
    ensures
        r@ == texture_bytes(t as int),
{
    let ghost want = texture_bytes(t as int);
    let mut buf = blank_tile();
    let mut y: u32 = 0;
    while y < TILE_SIZE
        invariant
            t < 9,
            want == texture_bytes(t as int),
            0 <= y <= 64,
            buf@.len() == TILE_BYTES,
            forall|i: int| 0 <= i < y * 256 ==> #[trigger] buf@[i] == want[i],
        decreases 64 - y,
    {
        let mut x: u32 = 0;
        while x < TILE_SIZE
            invariant
                t < 9,
                want == texture_bytes(t as int),
                0 <= y < 64,
                0 <= x <= 64,
                buf@.len() == TILE_BYTES,
                forall|i: int| 0 <= i < y * 256 + x * 4 ==> #[trigger] buf@[i] == want[i],
            decreases 64 - x,
        {
            let pixel = texture_pixel_of(t, x, y);
            let ghost prev = buf@;
            put(&mut buf, x, y, pixel);
            proof {
                let p = y * 64 + x;
                assert forall|i: int| 0 <= i < y * 256 + (x + 1) * 4 implies #[trigger] buf@[i] == want[i] by {
                    if i >= p * 4 {
                        let c = i - p * 4;
                        lemma_tile_offset(x as int, y as int, c);
                        assert(buf@[i] == pixel@[c]);
                    } else {
                        assert(buf@[i] == prev[i]);
                    }
                }
            }
            x = x + 1;
        }
        y = y + 1;
    }
    assert(buf@ =~= want);
    buf
}

// ── block texture generators ─────────────────────────────────────────────

/// Stone — uniform grey with blocky noise patches.
pub fn gen_stone() -> (r: Vec<u8>)
    ensures
        r@ == texture_bytes(0),
{
    render_texture(0)
}

/// Dirt — warm brown with slightly darker cluster patches.
pub fn gen_dirt() -> (r: Vec<u8>)
    ensures
        r@ == texture_bytes(1),
{
    render_texture(1)
}

/// Grass top — bright green with subtle cluster variation.
pub fn gen_grass_top() -> (r: Vec<u8>)
    ensures
        r@ == texture_bytes(2),
{
    render_texture(2)
}

/// Grass side — a green cap (about 1/6 of the height) above dirt; the dirt
/// part uses the dirt seed so the seam looks natural.
pub fn gen_grass_side() -> (r: Vec<u8>)
    ensures
        r@ == texture_bytes(3),
{
    render_texture(3)
}

/// Sand — warm beige with layered coarse and fine grain.
pub fn gen_sand() -> (r: Vec<u8>)
    ensures
        r@ == texture_bytes(4),
{
    render_texture(4)
}

/// Water — deep blue with horizontal wave brightness bands; alpha is 200
/// (about 78 %) so underwater geometry shows through.
pub fn gen_water() -> (r: Vec<u8>)
    ensures
        r@ == texture_bytes(5),
{
    render_texture(5)
}

/// Wood (log side) — warm brown with wavy vertical grain lines; the grain
/// is shifted per row so the lines are not perfectly straight.
pub fn gen_wood() -> (r: Vec<u8>)
    ensures
        r@ == texture_bytes(6),
{
    render_texture(6)
}

/// Leaves — two-tone green: dark irregular patches on a lighter base.
pub fn gen_leaves() -> (r: Vec<u8>)
    ensures
        r@ == texture_bytes(7),
{
    render_texture(7)
}

/// Bedrock — near-black with coarse and fine irregular veins.
pub fn gen_bedrock() -> (r: Vec<u8>)
    ensures
        r@ == texture_bytes(8),
{
    render_texture(8)
}

/// Number of generated textures.
pub const GENERATED_TILES: usize = 9;

/// All tile RGBA buffers, in tile index order: stone, dirt, grass top,
/// grass side, sand, water, wood, leaves, bedrock.
pub fn generate_all_tiles() -> (r: [Vec<u8>; 9])
    ensures
        forall|k: int| 0 <= k < 9 ==> #[trigger] r@[k]@ == texture_bytes(k),
{
    let r = [
        gen_stone(),
        gen_dirt(),
        gen_grass_top(),
        gen_grass_side(),
        gen_sand(),
        gen_water(),
        gen_wood(),
        gen_leaves(),
        gen_bedrock(),
    ];
    r
}

} // verus!
