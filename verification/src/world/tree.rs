use vstd::prelude::*;
use crate::world::block::BlockKind;

verus! {

/// One block of a tree shape: offset from the trunk base and kind.
pub type TreeBlock = (i32, i32, i32, BlockKind);

/// A tree shape, in the order its blocks are placed.
pub type TreeBlocks = Vec<TreeBlock>;

/// A wood block at offset `(x, y, z)`.
pub open spec fn wood(x: int, y: int, z: int) -> TreeBlock {
    (x as i32, y as i32, z as i32, BlockKind::Wood)
}

/// A leaf block at offset `(x, y, z)`.
pub open spec fn leaf(x: int, y: int, z: int) -> TreeBlock {
    (x as i32, y as i32, z as i32, BlockKind::Leaves)
}

/// A straight trunk of `n` wood blocks rising from the base.
pub open spec fn straight_trunk(n: nat) -> Seq<TreeBlock> {
    Seq::new(n, |y: int| wood(0, y, 0))
}

// ── oak ──────────────────────────────────────────────────────────────────

/// Whether the oak canopy holds a leaf at offset `(dx, dy, dz)` from its
/// centre: inside the squashed sphere `dx² + dz² + ⌊dy²/2⌋ ≤ 5`, and not
/// in the column below the centre where the trunk runs.
pub open spec fn oak_keeps(dx: int, dy: int, dz: int) -> bool {
    &&& dx * dx + dz * dz + (dy * dy) / 2 <= 5
    &&& !(dx == 0 && dz == 0 && dy < 0)
}

/// The leaves of the first `m` cells (dz = -2, -1, ...) of the canopy row
/// `(dy, dx)` around centre height `c`.
pub open spec fn oak_row(c: int, dy: int, dx: int, m: nat) -> Seq<TreeBlock>
    decreases m,
{
    if m == 0 {
        Seq::empty()
    } else {
        let dz = m - 3;
        oak_row(c, dy, dx, (m - 1) as nat) + if oak_keeps(dx, dy, dz) {
            seq![leaf(dx, c + dy, dz)]
        } else {
            Seq::empty()
        }
    }
}

/// The leaves of the first `k` rows (dx = -2, -1, ...) of canopy layer `dy`.
pub open spec fn oak_layer(c: int, dy: int, k: nat) -> Seq<TreeBlock>
    decreases k,
{
    if k == 0 {
        Seq::empty()
    } else {
        oak_layer(c, dy, (k - 1) as nat) + oak_row(c, dy, k - 3, 5)
    }
}

/// The leaves of the first `j` canopy layers (dy = -1, 0, ...).
pub open spec fn oak_canopy(c: int, j: nat) -> Seq<TreeBlock>
    decreases j,
{
    if j == 0 {
        Seq::empty()
    } else {
        oak_canopy(c, (j - 1) as nat) + oak_layer(c, j - 2, 5)
    }
}

/// The oak of trunk height `h`: the trunk, then the four canopy layers
/// centred one block above the trunk.
pub open spec fn oak_tree(h: int) -> Seq<TreeBlock> {
    straight_trunk(if h > 0 { h as nat } else { 0 }) + oak_canopy(h + 1, 4)
}

/// Block offsets of an oak with a trunk of `trunk_height` wood blocks.
pub fn oak_tree_blocks(trunk_height: i32) -> (r: TreeBlocks)
    requires
        trunk_height <= i32::MAX - 3,
    ensures
        r@ == oak_tree(trunk_height as int),
{
    let mut blocks: TreeBlocks = Vec::new();
    let mut y: i32 = 0;
    while y < trunk_height
        invariant
            0 <= y,
            y <= trunk_height || y == 0,
            blocks@ == straight_trunk(y as nat),
        decreases trunk_height - y,
    {
        blocks.push((0, y, 0, BlockKind::Wood));
        y = y + 1;
        assert(blocks@ =~= straight_trunk(y as nat));
    }
    let ghost trunk = blocks@;
    assert(trunk == straight_trunk(if trunk_height > 0 { trunk_height as nat } else { 0 }));

    let canopy_center_y: i32 = trunk_height + 1;
    let radius: i32 = 2;
    let ghost c = canopy_center_y as int;

    let mut dy: i32 = -1;
    while dy <= 2
        invariant
            -1 <= dy <= 3,
            canopy_center_y == trunk_height + 1,
            trunk_height <= i32::MAX - 3,
            radius == 2,
            c == canopy_center_y,
            blocks@ == trunk + oak_canopy(c, (dy + 1) as nat),
        decreases 3 - dy,
    {
        let ghost before_layer = blocks@;
        let mut dx: i32 = -radius;
        while dx <= radius
            invariant
                -2 <= dx <= 3,
                -1 <= dy <= 2,
                canopy_center_y == trunk_height + 1,
                trunk_height <= i32::MAX - 3,
                radius == 2,
                c == canopy_center_y,
                blocks@ == before_layer + oak_layer(c, dy as int, (dx + 2) as nat),
            decreases 3 - dx,
        {
            let ghost before_row = blocks@;
            let mut dz: i32 = -radius;
            while dz <= radius
                invariant
                    -2 <= dz <= 3,
                    -2 <= dx <= 2,
                    -1 <= dy <= 2,
                    canopy_center_y == trunk_height + 1,
                    trunk_height <= i32::MAX - 3,
                    radius == 2,
                    c == canopy_center_y,
                    blocks@ == before_row + oak_row(c, dy as int, dx as int, (dz + 2) as nat),
                decreases 3 - dz,
            {
                proof {
                    lemma_mul_bounded(dx as int, dx as int, 2, 2);
                    lemma_mul_bounded(dz as int, dz as int, 2, 2);
                    lemma_mul_bounded(dy as int, dy as int, 2, 2);
                    assert(0 <= dy * dy) by (nonlinear_arith);
                }
                let dist_sq: i32 = dx * dx + dz * dz + (dy * dy) / 2;
                let keep: bool = !(dist_sq > radius * radius + 1) && !(dx == 0 && dz == 0 && dy < 0);
                let ghost prev = blocks@;
                if keep {
                    blocks.push((dx, canopy_center_y + dy, dz, BlockKind::Leaves));
                }
                proof {
                    assert(oak_keeps(dx as int, dy as int, dz as int) == keep);
                    assert(oak_row(c, dy as int, dx as int, (dz + 3) as nat) == oak_row(
                        c,
                        dy as int,
                        dx as int,
                        (dz + 2) as nat,
                    ) + if keep {
                        seq![leaf(dx as int, c + dy, dz as int)]
                    } else {
                        Seq::<TreeBlock>::empty()
                    });
                    if keep {
                        assert(blocks@ =~= prev + seq![leaf(dx as int, c + dy, dz as int)]);
                    }
                    assert(blocks@ =~= before_row + oak_row(c, dy as int, dx as int, (dz + 3) as nat));
                }
                dz = dz + 1;
            }
            proof {
                assert(oak_layer(c, dy as int, (dx + 3) as nat) == oak_layer(
                    c,
                    dy as int,
                    (dx + 2) as nat,
                ) + oak_row(c, dy as int, dx as int, 5));
                assert(blocks@ =~= before_layer + oak_layer(c, dy as int, (dx + 3) as nat));
            }
            dx = dx + 1;
        }
        proof {
            assert(oak_canopy(c, (dy + 2) as nat) == oak_canopy(c, (dy + 1) as nat) + oak_layer(
                c,
                dy as int,
                5,
            ));
            assert(blocks@ =~= trunk + oak_canopy(c, (dy + 2) as nat));
        }
        dy = dy + 1;
    }
    blocks
}

// ── pine ─────────────────────────────────────────────────────────────────

/// The wood of trunk level `y` of a pine of height `h`: the centre column,
/// a 2×2 base on the two lowest levels, and up to half height a single
/// buttress alternating between +x (even levels) and +z (odd levels).
pub open spec fn pine_trunk_level(h: int, y: int) -> Seq<TreeBlock> {
    seq![wood(0, y, 0)] + if y < 2 {
        seq![wood(1, y, 0), wood(0, y, 1), wood(1, y, 1)]
    } else if y < h / 2 {
        if y % 2 == 0 {
            seq![wood(1, y, 0)]
        } else {
            seq![wood(0, y, 1)]
        }
    } else {
        Seq::empty()
    }
}

/// The wood of the first `n` trunk levels of a pine of height `h`.
pub open spec fn pine_trunk(h: int, n: nat) -> Seq<TreeBlock>
    decreases n,
{
    if n == 0 {
        Seq::empty()
    } else {
        pine_trunk(h, (n - 1) as nat) + pine_trunk_level(h, n - 1)
    }
}

/// The radius of canopy layer `layer` out of `layers`: five times the part
/// of the canopy still above the layer, `5 * (layers - layer) / layers`,
/// rounded to the nearest integer with halves rounded up.
pub open spec fn canopy_radius(layer: int, layers: int) -> int {
    (10 * (layers - layer) + layers) / (2 * layers)
}

/// Whether the disc of radius `r` at a canopy layer holds a leaf at
/// `(dx, dz)`: inside the disc and, on a ring layer, not inside the disc of
/// radius `r - 1` (or 0).
pub open spec fn disc_keeps(r: int, ring: bool, dx: int, dz: int) -> bool {
    let dist_sq = dx * dx + dz * dz;
    let inner_r = if r - 1 > 0 { r - 1 } else { 0 };
    dist_sq <= r * r && (!ring || dist_sq >= inner_r * inner_r)
}

/// The leaves of the first `m` cells (dz = -r, -r+1, ...) of disc row `dx`.
pub open spec fn disc_row(r: int, ring: bool, y: int, dx: int, m: nat) -> Seq<TreeBlock>
    decreases m,
{
    if m == 0 {
        Seq::empty()
    } else {
        let dz = m - 1 - r;
        disc_row(r, ring, y, dx, (m - 1) as nat) + if disc_keeps(r, ring, dx, dz) {
            seq![leaf(dx, y, dz)]
        } else {
            Seq::empty()
        }
    }
}

/// The leaves of the first `k` rows (dx = -r, -r+1, ...) of the disc.
pub open spec fn disc_rows(r: int, ring: bool, y: int, k: nat) -> Seq<TreeBlock>
    decreases k,
{
    if k == 0 {
        Seq::empty()
    } else {
        disc_rows(r, ring, y, (k - 1) as nat) + disc_row(r, ring, y, k - 1 - r, (2 * r + 1) as nat)
    }
}

/// The blocks of the first `n` steps of one branch arm along `(dx, dz)` at
/// height `y`, of total length `len`: a wood block per step, and below the
/// tip a wood block ringed by four leaves with a leaf on the tip.
pub open spec fn branch_steps(y: int, dx: int, dz: int, len: int, n: nat) -> Seq<TreeBlock>
    decreases n,
{
    if n == 0 {
        Seq::empty()
    } else {
        let step = n as int;
        let bx = dx * step;
        let bz = dz * step;
        branch_steps(y, dx, dz, len, (n - 1) as nat) + seq![wood(bx, y, bz)] + if step == len {
            seq![
                wood(bx, y - 1, bz),
                leaf(bx, y - 1, bz + 1),
                leaf(bx, y - 1, bz - 1),
                leaf(bx + 1, y - 1, bz),
                leaf(bx - 1, y - 1, bz),
                leaf(bx, y, bz),
            ]
        } else {
            Seq::empty()
        }
    }
}

/// Direction `i` of the four branch arms: +x, -x, +z, -z.
pub open spec fn branch_dir(i: int) -> (int, int) {
    if i == 0 {
        (1, 0)
    } else if i == 1 {
        (-1, 0)
    } else if i == 2 {
        (0, 1)
    } else {
        (0, -1)
    }
}

/// Length of each branch arm for a layer of radius `r`: `r - 1`, at least 1.
pub open spec fn arm_length(r: int) -> int {
    if r - 1 > 1 {
        r - 1
    } else {
        1
    }
}

/// The blocks of the first `k` branch arms at height `y` for radius `r`;
/// each arm ends with a wood block next to the trunk.
pub open spec fn branches(y: int, r: int, k: nat) -> Seq<TreeBlock>
    decreases k,
{
    if k == 0 {
        Seq::empty()
    } else {
        let (dx, dz) = branch_dir(k - 1);
        branches(y, r, (k - 1) as nat) + branch_steps(y, dx, dz, arm_length(r), arm_length(r) as nat)
            + seq![wood(dx, y, dz)]
    }
}

/// The blocks of canopy layer `layer` of a pine of height `h`: a single
/// leaf at the tip when the radius rounds to 0, else the (ring) disc,
/// followed on every third layer of radius at least 2 by four branch arms.
pub open spec fn pine_layer(h: int, layer: int) -> Seq<TreeBlock> {
    let layers = h + 4;
    let y = h - 2 + layer;
    let r = canopy_radius(layer, layers);
    if r == 0 {
        seq![leaf(0, y, 0)]
    } else {
        disc_rows(r, layer > layers / 2, y, (2 * r + 1) as nat) + if layer % 3 == 0 && r >= 2 {
            branches(y, r, 4)
        } else {
            Seq::empty()
        }
    }
}

/// The blocks of the first `n` canopy layers of a pine of height `h`.
pub open spec fn pine_canopy(h: int, n: nat) -> Seq<TreeBlock>
    decreases n,
{
    if n == 0 {
        Seq::empty()
    } else {
        pine_canopy(h, (n - 1) as nat) + pine_layer(h, n - 1)
    }
}

/// The pine of trunk height `h`: its trunk levels, then `h + 4` canopy
/// layers starting two levels below the top of the trunk.
pub open spec fn pine_tree(h: int) -> Seq<TreeBlock> {
    pine_trunk(h, if h > 0 { h as nat } else { 0 }) + pine_canopy(
        h,
        if h + 4 > 0 { (h + 4) as nat } else { 0 },
    )
}

proof fn lemma_mul_bounded(a: int, b: int, m: int, n: int)
    requires
        0 <= m,
        0 <= n,
        -m <= a <= m,
        -n <= b <= n,
    ensures
        -(m * n) <= a * b <= m * n,
{
    assert(-(m * n) <= a * b <= m * n) by (nonlinear_arith)
        requires
            0 <= m,
            0 <= n,
            -m <= a <= m,
            -n <= b <= n,
    ;
}

proof fn lemma_canopy_radius_bounds(layer: int, layers: int)
    requires
        0 <= layer < layers,
    ensures
        0 <= canopy_radius(layer, layers) <= 5,
{
    let n = 10 * (layers - layer) + layers;
    let d = 2 * layers;
    assert(0 <= n / d <= 5) by (nonlinear_arith)
        requires
            n == 10 * (layers - layer) + layers,
            d == 2 * layers,
            0 <= layer < layers,
    ;
}

/// Block offsets of a pine with a trunk of `trunk_height` levels.
///
/// The radius of each canopy layer is `round((1 - layer / layers) * 5)`,
/// halves rounded up, which `canopy_radius` states exactly in integers.
/// Evaluated in `f32` arithmetic, the quotient, difference and product
/// together stray by less than `9 · 2^-24` from the exact value, while an
/// exact value that is not itself a half-integer lies at least
/// `1 / (2 · layers)` away from one; at the five exact halves the `f32`
/// quotient depends only on the fraction and rounds up as here. So while the
/// layer count `trunk_height + 4` is at most `2^19` the exact and the `f32`
/// radii agree. Taller trunks are left out: there the two may part.
pub fn pine_tree_blocks(trunk_height: i32) -> (r: TreeBlocks)
    requires
        i32::MIN + 2 <= trunk_height <= 524284,
    ensures
        r@ == pine_tree(trunk_height as int),
{
    let ghost h = trunk_height as int;
    let mut blocks: TreeBlocks = Vec::new();
    let mut y: i32 = 0;
    while y < trunk_height
        invariant
            0 <= y,
            y <= trunk_height || y == 0,
            trunk_height <= 524284,
            h == trunk_height,
            blocks@ == pine_trunk(h, y as nat),
        decreases trunk_height - y,
    {
        let ghost prev = blocks@;
        blocks.push((0, y, 0, BlockKind::Wood));
        if y < 2 {
            blocks.push((1, y, 0, BlockKind::Wood));
            blocks.push((0, y, 1, BlockKind::Wood));
            blocks.push((1, y, 1, BlockKind::Wood));
        } else if y < trunk_height / 2 {
            if y % 2 == 0 {
                blocks.push((1, y, 0, BlockKind::Wood));
            } else {
                blocks.push((0, y, 1, BlockKind::Wood));
            }
        }
        proof {
            assert(trunk_height / 2 == h / 2);
            assert(blocks@ =~= prev + pine_trunk_level(h, y as int));
            assert(pine_trunk(h, (y + 1) as nat) == pine_trunk(h, y as nat) + pine_trunk_level(
                h,
                y as int,
            ));
        }
        y = y + 1;
    }
    let ghost trunk = blocks@;
    assert(trunk == pine_trunk(h, if h > 0 { h as nat } else { 0 }));

    let canopy_start: i32 = trunk_height - 2;
    let canopy_layers: i32 = trunk_height + 4;

    let mut layer: i32 = 0;
    while layer < canopy_layers
        invariant
            0 <= layer,
            layer <= canopy_layers || layer == 0,
            canopy_start == trunk_height - 2,
            canopy_layers == trunk_height + 4,
            i32::MIN + 2 <= trunk_height <= 524284,
            h == trunk_height,
            blocks@ == trunk + pine_canopy(h, layer as nat),
        decreases canopy_layers - layer,
    {
        let ghost before_layer = blocks@;
        let y: i32 = canopy_start + layer;
        proof {
            lemma_canopy_radius_bounds(layer as int, canopy_layers as int);
        }
        let radius: i32 = (10 * (canopy_layers - layer) + canopy_layers) / (2 * canopy_layers);
        assert(radius == canopy_radius(layer as int, canopy_layers as int));
        if radius == 0 {
            push_leaf(&mut blocks, 0, y, 0);
            assert(blocks@ =~= before_layer + pine_layer(h, layer as int));
        } else {
            let is_ring_layer: bool = layer > canopy_layers / 2;
            let inner_r: i32 = if radius - 1 > 0 { radius - 1 } else { 0 };
            proof {
                lemma_mul_bounded(radius as int, radius as int, 5, 5);
                lemma_mul_bounded(inner_r as int, inner_r as int, 5, 5);
            }
            let r_sq: i32 = radius * radius;
            let ghost ri = radius as int;
            let mut dx: i32 = -radius;
            while dx <= radius
                invariant
                    1 <= radius <= 5,
                    ri == radius,
                    -radius <= dx <= radius + 1,
                    r_sq == radius * radius,
                    inner_r == (if radius - 1 > 0 { radius - 1 } else { 0 }),
                    blocks@ == before_layer + disc_rows(ri, is_ring_layer, y as int, (dx + radius) as nat),
                decreases radius + 1 - dx,
            {
                let ghost before_row = blocks@;
                let mut dz: i32 = -radius;
                while dz <= radius
                    invariant
                        1 <= radius <= 5,
                        ri == radius,
                        -radius <= dx <= radius,
                        -radius <= dz <= radius + 1,
                        r_sq == radius * radius,
                        inner_r == (if radius - 1 > 0 { radius - 1 } else { 0 }),
                        blocks@ == before_row + disc_row(ri, is_ring_layer, y as int, dx as int, (dz + radius) as nat),
                    decreases radius + 1 - dz,
                {
                    proof {
                        lemma_mul_bounded(dx as int, dx as int, 5, 5);
                        lemma_mul_bounded(dz as int, dz as int, 5, 5);
                        lemma_mul_bounded(inner_r as int, inner_r as int, 5, 5);
                    }
                    let dist_sq: i32 = dx * dx + dz * dz;
                    let keep: bool = dist_sq <= r_sq && (!is_ring_layer || dist_sq >= inner_r * inner_r);
                    let ghost prev = blocks@;
                    if keep {
                        push_leaf(&mut blocks, dx, y, dz);
                    }
                    proof {
                        assert(keep == disc_keeps(ri, is_ring_layer, dx as int, dz as int));
                        assert(disc_row(ri, is_ring_layer, y as int, dx as int, (dz + radius + 1) as nat)
                            == disc_row(ri, is_ring_layer, y as int, dx as int, (dz + radius) as nat)
                            + if keep {
                            seq![leaf(dx as int, y as int, dz as int)]
                        } else {
                            Seq::<TreeBlock>::empty()
                        });
                        assert(blocks@ =~= before_row + disc_row(
                            ri,
                            is_ring_layer,
                            y as int,
                            dx as int,
                            (dz + radius + 1) as nat,
                        ));
                    }
                    dz = dz + 1;
                }
                proof {
                    assert(disc_rows(ri, is_ring_layer, y as int, (dx + radius + 1) as nat)
                        == disc_rows(ri, is_ring_layer, y as int, (dx + radius) as nat) + disc_row(
                        ri,
                        is_ring_layer,
                        y as int,
                        dx as int,
                        (2 * ri + 1) as nat,
                    ));
                    assert(blocks@ =~= before_layer + disc_rows(
                        ri,
                        is_ring_layer,
                        y as int,
                        (dx + radius + 1) as nat,
                    ));
                }
                dx = dx + 1;
            }
            let ghost after_disc = blocks@;
            if layer % 3 == 0 && radius >= 2 {
                add_diagonal_branches(&mut blocks, y, radius);
            }
            proof {
                assert(canopy_layers / 2 == (h + 4) / 2);
                assert(blocks@ =~= before_layer + pine_layer(h, layer as int));
            }
        }
        proof {
            assert(pine_canopy(h, (layer + 1) as nat) == pine_canopy(h, layer as nat) + pine_layer(
                h,
                layer as int,
            ));
            assert(blocks@ =~= trunk + pine_canopy(h, (layer + 1) as nat));
        }
        layer = layer + 1;
    }
    blocks
}

/// Append the four branch arms of a canopy layer at height `y` with radius
/// `radius`.
fn add_diagonal_branches(blocks: &mut TreeBlocks, y: i32, radius: i32)
    requires
        2 <= radius <= 5,
        i32::MIN + 1 <= y <= i32::MAX - 1,
    ensures
        final(blocks)@ == old(blocks)@ + branches(y as int, radius as int, 4),
{
    let ghost start = blocks@;
    let directions: [(i32, i32); 4] = [(1i32, 0i32), (-1, 0), (0, 1), (0, -1)];
    let mut i: usize = 0;
    while i < 4
        invariant
            0 <= i <= 4,
            2 <= radius <= 5,
            i32::MIN + 1 <= y <= i32::MAX - 1,
            directions@ == seq![(1i32, 0i32), (-1i32, 0i32), (0i32, 1i32), (0i32, -1i32)],
            blocks@ == start + branches(y as int, radius as int, i as nat),
        decreases 4 - i,
    {
        let (dx, dz) = directions[i];
        assert(branch_dir(i as int) == (dx as int, dz as int));
        let branch_len: i32 = if radius - 1 > 1 { radius - 1 } else { 1 };
        let ghost before_arm = blocks@;
        let mut step: i32 = 1;
        while step <= branch_len
            invariant
                1 <= step <= branch_len + 1,
                branch_len == arm_length(radius as int),
                1 <= branch_len <= 4,
                -1 <= dx <= 1,
                -1 <= dz <= 1,
                i32::MIN + 1 <= y <= i32::MAX - 1,
                blocks@ == before_arm + branch_steps(
                    y as int,
                    dx as int,
                    dz as int,
                    branch_len as int,
                    (step - 1) as nat,
                ),
            decreases branch_len + 1 - step,
        {
            let ghost prev = blocks@;
            proof {
                lemma_mul_bounded(dx as int, step as int, 1, 4);
                lemma_mul_bounded(dz as int, step as int, 1, 4);
            }
            let bx: i32 = dx * step;
            let bz: i32 = dz * step;
            blocks.push((bx, y, bz, BlockKind::Wood));
            if step == branch_len {
                blocks.push((bx, y - 1, bz, BlockKind::Wood));
                push_leaf(blocks, bx, y - 1, bz + 1);
                push_leaf(blocks, bx, y - 1, bz - 1);
                push_leaf(blocks, bx + 1, y - 1, bz);
                push_leaf(blocks, bx - 1, y - 1, bz);
                push_leaf(blocks, bx, y, bz);
            }
            proof {
                let s = step as int;
                assert(bx as int == dx * s && bz as int == dz * s);
                assert(branch_steps(y as int, dx as int, dz as int, branch_len as int, step as nat)
                    == branch_steps(y as int, dx as int, dz as int, branch_len as int, (step - 1) as nat)
                    + seq![wood(bx as int, y as int, bz as int)] + if s == branch_len {
                    seq![
                        wood(bx as int, y - 1, bz as int),
                        leaf(bx as int, y - 1, bz + 1),
                        leaf(bx as int, y - 1, bz - 1),
                        leaf(bx + 1, y - 1, bz as int),
                        leaf(bx - 1, y - 1, bz as int),
                        leaf(bx as int, y as int, bz as int),
                    ]
                } else {
                    Seq::<TreeBlock>::empty()
                });
                assert(blocks@ =~= before_arm + branch_steps(
                    y as int,
                    dx as int,
                    dz as int,
                    branch_len as int,
                    step as nat,
                ));
            }
            step = step + 1;
        }
        blocks.push((dx, y, dz, BlockKind::Wood));
        proof {
            assert(branches(y as int, radius as int, (i + 1) as nat) == branches(
                y as int,
                radius as int,
                i as nat,
            ) + branch_steps(y as int, dx as int, dz as int, branch_len as int, branch_len as nat)
                + seq![wood(dx as int, y as int, dz as int)]);
            assert(blocks@ =~= start + branches(y as int, radius as int, (i + 1) as nat));
        }
        i = i + 1;
    }
}

/// Append a leaf at `(x, y, z)`.
fn push_leaf(blocks: &mut TreeBlocks, x: i32, y: i32, z: i32)
    ensures
        final(blocks)@ == old(blocks)@.push(leaf(x as int, y as int, z as int)),
{
    blocks.push((x, y, z, BlockKind::Leaves));
}


// ── what trees are made of ───────────────────────────────────────────────

/// Whether every block of a tree shape is wood or leaves.
pub open spec fn only_wood_and_leaves(s: Seq<TreeBlock>) -> bool {
    forall|i: int|
        0 <= i < s.len() ==> (#[trigger] s[i]).3 == BlockKind::Wood || s[i].3 == BlockKind::Leaves
}

proof fn lemma_wl_concat(a: Seq<TreeBlock>, b: Seq<TreeBlock>)
    requires
        only_wood_and_leaves(a),
        only_wood_and_leaves(b),
    ensures
        only_wood_and_leaves(a + b),
{
    assert forall|i: int| 0 <= i < (a + b).len() implies ((#[trigger] (a + b)[i]).3 == BlockKind::Wood
        || (a + b)[i].3 == BlockKind::Leaves) by {
        if i < a.len() {
            assert((a + b)[i] == a[i]);
        } else {
            assert((a + b)[i] == b[i - a.len()]);
        }
    }
}

proof fn lemma_wl_oak_row(c: int, dy: int, dx: int, m: nat)
    ensures
        only_wood_and_leaves(oak_row(c, dy, dx, m)),
    decreases m,
{
    if m > 0 {
        lemma_wl_oak_row(c, dy, dx, (m - 1) as nat);
        let dz = m - 3;
        let tail = if oak_keeps(dx, dy, dz) {
            seq![leaf(dx, c + dy, dz)]
        } else {
            Seq::empty()
        };
        assert(only_wood_and_leaves(tail));
        lemma_wl_concat(oak_row(c, dy, dx, (m - 1) as nat), tail);
    }
}

proof fn lemma_wl_oak_layer(c: int, dy: int, k: nat)
    ensures
        only_wood_and_leaves(oak_layer(c, dy, k)),
    decreases k,
{
    if k > 0 {
        lemma_wl_oak_layer(c, dy, (k - 1) as nat);
        lemma_wl_oak_row(c, dy, k - 3, 5);
        lemma_wl_concat(oak_layer(c, dy, (k - 1) as nat), oak_row(c, dy, k - 3, 5));
    }
}

proof fn lemma_wl_oak_canopy(c: int, j: nat)
    ensures
        only_wood_and_leaves(oak_canopy(c, j)),
    decreases j,
{
    if j > 0 {
        lemma_wl_oak_canopy(c, (j - 1) as nat);
        lemma_wl_oak_layer(c, j - 2, 5);
        lemma_wl_concat(oak_canopy(c, (j - 1) as nat), oak_layer(c, j - 2, 5));
    }
}

proof fn lemma_wl_pine_trunk(h: int, n: nat)
    ensures
        only_wood_and_leaves(pine_trunk(h, n)),
    decreases n,
{
    if n > 0 {
        lemma_wl_pine_trunk(h, (n - 1) as nat);
        let y = n - 1;
        let extra = if y < 2 {
            seq![wood(1, y, 0), wood(0, y, 1), wood(1, y, 1)]
        } else if y < h / 2 {
            if y % 2 == 0 {
                seq![wood(1, y, 0)]
            } else {
                seq![wood(0, y, 1)]
            }
        } else {
            Seq::empty()
        };
        assert(only_wood_and_leaves(seq![wood(0, y, 0)]));
        assert(only_wood_and_leaves(extra));
        lemma_wl_concat(seq![wood(0, y, 0)], extra);
        lemma_wl_concat(pine_trunk(h, (n - 1) as nat), pine_trunk_level(h, y));
    }
}

proof fn lemma_wl_disc_row(r: int, ring: bool, y: int, dx: int, m: nat)
    ensures
        only_wood_and_leaves(disc_row(r, ring, y, dx, m)),
    decreases m,
{
    if m > 0 {
        lemma_wl_disc_row(r, ring, y, dx, (m - 1) as nat);
        let dz = m - 1 - r;
        let tail = if disc_keeps(r, ring, dx, dz) {
            seq![leaf(dx, y, dz)]
        } else {
            Seq::empty()
        };
        assert(only_wood_and_leaves(tail));
        lemma_wl_concat(disc_row(r, ring, y, dx, (m - 1) as nat), tail);
    }
}

proof fn lemma_wl_disc_rows(r: int, ring: bool, y: int, k: nat)
    ensures
        only_wood_and_leaves(disc_rows(r, ring, y, k)),
    decreases k,
{
    if k > 0 {
        lemma_wl_disc_rows(r, ring, y, (k - 1) as nat);
        lemma_wl_disc_row(r, ring, y, k - 1 - r, (2 * r + 1) as nat);
        lemma_wl_concat(
            disc_rows(r, ring, y, (k - 1) as nat),
            disc_row(r, ring, y, k - 1 - r, (2 * r + 1) as nat),
        );
    }
}

proof fn lemma_wl_branch_steps(y: int, dx: int, dz: int, len: int, n: nat)
    ensures
        only_wood_and_leaves(branch_steps(y, dx, dz, len, n)),
    decreases n,
{
    if n > 0 {
        lemma_wl_branch_steps(y, dx, dz, len, (n - 1) as nat);
        let step = n as int;
        let bx = dx * step;
        let bz = dz * step;
        let tip = if step == len {
            seq![
                wood(bx, y - 1, bz),
                leaf(bx, y - 1, bz + 1),
                leaf(bx, y - 1, bz - 1),
                leaf(bx + 1, y - 1, bz),
                leaf(bx - 1, y - 1, bz),
                leaf(bx, y, bz),
            ]
        } else {
            Seq::empty()
        };
        assert(only_wood_and_leaves(seq![wood(bx, y, bz)]));
        assert(only_wood_and_leaves(tip));
        lemma_wl_concat(branch_steps(y, dx, dz, len, (n - 1) as nat), seq![wood(bx, y, bz)]);
        lemma_wl_concat(branch_steps(y, dx, dz, len, (n - 1) as nat) + seq![wood(bx, y, bz)], tip);
    }
}

proof fn lemma_wl_branches(y: int, r: int, k: nat)
    ensures
        only_wood_and_leaves(branches(y, r, k)),
    decreases k,
{
    if k > 0 {
        lemma_wl_branches(y, r, (k - 1) as nat);
        let (dx, dz) = branch_dir(k - 1);
        let arm = branch_steps(y, dx, dz, arm_length(r), arm_length(r) as nat);
        lemma_wl_branch_steps(y, dx, dz, arm_length(r), arm_length(r) as nat);
        assert(only_wood_and_leaves(seq![wood(dx, y, dz)]));
        lemma_wl_concat(branches(y, r, (k - 1) as nat), arm);
        lemma_wl_concat(branches(y, r, (k - 1) as nat) + arm, seq![wood(dx, y, dz)]);
    }
}

proof fn lemma_wl_pine_canopy(h: int, n: nat)
    ensures
        only_wood_and_leaves(pine_canopy(h, n)),
    decreases n,
{
    if n > 0 {
        lemma_wl_pine_canopy(h, (n - 1) as nat);
        let layer = n - 1;
        let layers = h + 4;
        let y = h - 2 + layer;
        let r = canopy_radius(layer, layers);
        if r == 0 {
            assert(only_wood_and_leaves(seq![leaf(0, y, 0)]));
        } else {
            let extra = if layer % 3 == 0 && r >= 2 {
                branches(y, r, 4)
            } else {
                Seq::empty()
            };
            lemma_wl_disc_rows(r, layer > layers / 2, y, (2 * r + 1) as nat);
            lemma_wl_branches(y, r, 4);
            assert(only_wood_and_leaves(extra));
            lemma_wl_concat(disc_rows(r, layer > layers / 2, y, (2 * r + 1) as nat), extra);
        }
        lemma_wl_concat(pine_canopy(h, (n - 1) as nat), pine_layer(h, layer));
    }
}

/// Trees are made of wood and leaves only: every block of an oak and of a
/// pine, of any height, is one or the other.
pub proof fn lemma_trees_are_wood_and_leaves(h: int)
    ensures
        only_wood_and_leaves(oak_tree(h)),
        only_wood_and_leaves(pine_tree(h)),
{
    let n: nat = if h > 0 { h as nat } else { 0 };
    assert(only_wood_and_leaves(straight_trunk(n)));
    lemma_wl_oak_canopy(h + 1, 4);
    lemma_wl_concat(straight_trunk(n), oak_canopy(h + 1, 4));
    lemma_wl_pine_trunk(h, n);
    let m: nat = if h + 4 > 0 { (h + 4) as nat } else { 0 };
    lemma_wl_pine_canopy(h, m);
    lemma_wl_concat(pine_trunk(h, n), pine_canopy(h, m));
}

} // verus!
