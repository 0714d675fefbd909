//! Which chunks the streaming system must bring in around the player.

use vstd::prelude::*;
use std::collections::HashMap;
use crate::utils::math::{chunk_key, chunk_pos_to_idx};
use crate::world::chunk::ChunkPos;

verus! {

broadcast use vstd::std_specs::hash::group_hash_axioms;

/// The ground-layer chunks of column `x` of the streaming square, for the
/// first `m` values of z (from `cz - radius` up), that no loaded chunk
/// holds.
pub open spec fn missing_in_column(x: int, cz: int, radius: int, loaded: Set<u64>, m: nat) -> Seq<ChunkPos>
    decreases m,
{
    if m == 0 {
        Seq::empty()
    } else {
        let z = cz - radius + m - 1;
        missing_in_column(x, cz, radius, loaded, (m - 1) as nat) + if loaded.contains(
            chunk_key(x as i32, 0, z as i32),
        ) {
            Seq::empty()
        } else {
            seq![ChunkPos { x: x as i32, y: 0, z: z as i32 }]
        }
    }
}

/// The missing ground-layer chunks of the first `k` columns (from
/// `cx - radius` up) of the square of side `2 * radius + 1` around
/// `(cx, cz)`.
pub open spec fn missing_in_square(cx: int, cz: int, radius: int, loaded: Set<u64>, k: nat) -> Seq<ChunkPos>
    decreases k,
{
    if k == 0 {
        Seq::empty()
    } else {
        missing_in_square(cx, cz, radius, loaded, (k - 1) as nat) + missing_in_column(
            cx - radius + k - 1,
            cz,
            radius,
            loaded,
            (2 * radius + 1) as nat,
        )
    }
}

/// The chunks to stream in around the player's chunk `(cx, cz)`: every
/// ground-layer (`y == 0`) chunk within `radius` chunks in both horizontal
/// directions whose key `loaded` does not hold, column by column in order
/// of increasing x, each column in order of increasing z.
pub fn chunks_to_stream<V>(cx: i32, cz: i32, radius: i32, loaded: &HashMap<u64, V>) -> (r: Vec<ChunkPos>)
    requires
        0 <= radius,
        i32::MIN <= cx - radius,
        cx + radius <= i32::MAX,
        i32::MIN <= cz - radius,
        cz + radius <= i32::MAX,
    ensures
        r@ == missing_in_square(
            cx as int,
            cz as int,
            radius as int,
            loaded@.dom(),
            (2 * radius + 1) as nat,
        ),
{
    let mut desired: Vec<ChunkPos> = Vec::new();
    let x_end: i64 = cx as i64 + radius as i64;
    let z_end: i64 = cz as i64 + radius as i64;
    let mut x: i64 = cx as i64 - radius as i64;
    while x <= x_end
        invariant
            0 <= radius,
            i32::MIN <= cx - radius,
            cx + radius <= i32::MAX,
            i32::MIN <= cz - radius,
            cz + radius <= i32::MAX,
            x_end == cx + radius,
            z_end == cz + radius,
            cx - radius <= x <= cx + radius + 1,
            desired@ == missing_in_square(
                cx as int,
                cz as int,
                radius as int,
                loaded@.dom(),
                (x - (cx - radius)) as nat,
            ),
        decreases cx + radius + 1 - x,
    {
        let ghost before = desired@;
        let xi: i32 = x as i32;
        let mut z: i64 = cz as i64 - radius as i64;
        while z <= z_end
            invariant
                0 <= radius,
                i32::MIN <= cz - radius,
                cz + radius <= i32::MAX,
                z_end == cz + radius,
                cx - radius <= x <= cx + radius,
                xi == x,
                cz - radius <= z <= cz + radius + 1,
                desired@ == before + missing_in_column(
                    x as int,
                    cz as int,
                    radius as int,
                    loaded@.dom(),
                    (z - (cz - radius)) as nat,
                ),
            decreases cz + radius + 1 - z,
        {
            let zi: i32 = z as i32;
            let idx: u64 = chunk_pos_to_idx(xi, 0, zi);
            let ghost prev = desired@;
            if !loaded.contains_key(&idx) {
                desired.push(ChunkPos { x: xi, y: 0, z: zi });
            }
            proof {
                assert(missing_in_column(
                    x as int,
                    cz as int,
                    radius as int,
                    loaded@.dom(),
                    (z + 1 - (cz - radius)) as nat,
                ) == missing_in_column(
                    x as int,
                    cz as int,
                    radius as int,
                    loaded@.dom(),
                    (z - (cz - radius)) as nat,
                ) + if loaded@.dom().contains(chunk_key(xi, 0, zi)) {
                    Seq::<ChunkPos>::empty()
                } else {
                    seq![ChunkPos { x: xi, y: 0, z: zi }]
                });
                assert(desired@ =~= before + missing_in_column(
                    x as int,
                    cz as int,
                    radius as int,
                    loaded@.dom(),
                    (z + 1 - (cz - radius)) as nat,
                ));
            }
            z = z + 1;
        }
        proof {
            assert(missing_in_square(
                cx as int,
                cz as int,
                radius as int,
                loaded@.dom(),
                (x + 1 - (cx - radius)) as nat,
            ) == missing_in_square(
                cx as int,
                cz as int,
                radius as int,
                loaded@.dom(),
                (x - (cx - radius)) as nat,
            ) + missing_in_column(
                x as int,
                cz as int,
                radius as int,
                loaded@.dom(),
                (2 * radius + 1) as nat,
            ));
            assert(desired@ =~= missing_in_square(
                cx as int,
                cz as int,
                radius as int,
                loaded@.dom(),
                (x + 1 - (cx - radius)) as nat,
            ));
        }
        x = x + 1;
    }
    desired
}

/// Whether `p` is a ground-layer chunk of the streaming square of side
/// `2 * radius + 1` around `(cx, cz)`.
pub open spec fn in_stream_square(p: ChunkPos, cx: int, cz: int, radius: int) -> bool {
    &&& p.y == 0
    &&& cx - radius <= p.x <= cx + radius
    &&& cz - radius <= p.z <= cz + radius
}

proof fn lemma_column_sound_complete(x: int, cz: int, radius: int, loaded: Set<u64>, m: nat)
    requires
        i32::MIN <= x <= i32::MAX,
        i32::MIN <= cz - radius,
        cz - radius + m - 1 <= i32::MAX,
    ensures
        forall|j: int|
            0 <= j < missing_in_column(x, cz, radius, loaded, m).len() ==> {
                let p = #[trigger] missing_in_column(x, cz, radius, loaded, m)[j];
                &&& p.y == 0
                &&& p.x == x
                &&& cz - radius <= p.z < cz - radius + m
                &&& !loaded.contains(chunk_key(p.x, p.y, p.z))
            },
        forall|z: int|
            cz - radius <= z < cz - radius + m && !loaded.contains(chunk_key(x as i32, 0, z as i32))
                ==> #[trigger] missing_in_column(x, cz, radius, loaded, m).contains(
                ChunkPos { x: x as i32, y: 0, z: z as i32 },
            ),
    decreases m,
{
    if m > 0 {
        lemma_column_sound_complete(x, cz, radius, loaded, (m - 1) as nat);
        let prev = missing_in_column(x, cz, radius, loaded, (m - 1) as nat);
        let cur = missing_in_column(x, cz, radius, loaded, m);
        let z0 = cz - radius + m - 1;
        let tail = if loaded.contains(chunk_key(x as i32, 0, z0 as i32)) {
            Seq::<ChunkPos>::empty()
        } else {
            seq![ChunkPos { x: x as i32, y: 0, z: z0 as i32 }]
        };
        assert(cur == prev + tail);
        assert forall|z: int|
            cz - radius <= z < cz - radius + m && !loaded.contains(chunk_key(x as i32, 0, z as i32))
                implies #[trigger] cur.contains(ChunkPos { x: x as i32, y: 0, z: z as i32 }) by {
            if z < z0 {
                assert(prev.contains(ChunkPos { x: x as i32, y: 0, z: z as i32 }));
                let j = choose|j: int| 0 <= j < prev.len() && prev[j] == ChunkPos { x: x as i32, y: 0, z: z as i32 };
                assert(cur[j] == prev[j]);
            } else {
                assert(cur[prev.len() as int] == ChunkPos { x: x as i32, y: 0, z: z as i32 });
            }
        }
    }
}

proof fn lemma_square_sound_complete(cx: int, cz: int, radius: int, loaded: Set<u64>, k: nat)
    requires
        0 <= radius,
        i32::MIN <= cx - radius,
        cx - radius + k - 1 <= i32::MAX,
        i32::MIN <= cz - radius,
        cz + radius <= i32::MAX,
    ensures
        forall|j: int|
            0 <= j < missing_in_square(cx, cz, radius, loaded, k).len() ==> {
                let p = #[trigger] missing_in_square(cx, cz, radius, loaded, k)[j];
                &&& p.y == 0
                &&& cx - radius <= p.x < cx - radius + k
                &&& cz - radius <= p.z <= cz + radius
                &&& !loaded.contains(chunk_key(p.x, p.y, p.z))
            },
        forall|x: int, z: int|
            cx - radius <= x < cx - radius + k && cz - radius <= z <= cz + radius && !loaded.contains(
                chunk_key(x as i32, 0, z as i32),
            ) ==> #[trigger] missing_in_square(cx, cz, radius, loaded, k).contains(
                ChunkPos { x: x as i32, y: 0, z: z as i32 },
            ),
    decreases k,
{
    if k > 0 {
        lemma_square_sound_complete(cx, cz, radius, loaded, (k - 1) as nat);
        let x0 = cx - radius + k - 1;
        let prev = missing_in_square(cx, cz, radius, loaded, (k - 1) as nat);
        let col = missing_in_column(x0, cz, radius, loaded, (2 * radius + 1) as nat);
        lemma_column_sound_complete(x0, cz, radius, loaded, (2 * radius + 1) as nat);
        let cur = missing_in_square(cx, cz, radius, loaded, k);
        assert(cur == prev + col);
        assert forall|j: int| 0 <= j < cur.len() implies ({
            let p = #[trigger] cur[j];
            &&& p.y == 0
            &&& cx - radius <= p.x < cx - radius + k
            &&& cz - radius <= p.z <= cz + radius
            &&& !loaded.contains(chunk_key(p.x, p.y, p.z))
        }) by {
            if j < prev.len() {
                assert(cur[j] == prev[j]);
            } else {
                assert(cur[j] == col[j - prev.len()]);
            }
        }
        assert forall|x: int, z: int|
            cx - radius <= x < cx - radius + k && cz - radius <= z <= cz + radius && !loaded.contains(
                chunk_key(x as i32, 0, z as i32),
            ) implies #[trigger] cur.contains(ChunkPos { x: x as i32, y: 0, z: z as i32 }) by {
            let p = ChunkPos { x: x as i32, y: 0, z: z as i32 };
            if x < x0 {
                assert(prev.contains(p));
                let j = choose|j: int| 0 <= j < prev.len() && prev[j] == p;
                assert(cur[j] == prev[j]);
            } else {
                assert(col.contains(p));
                let j = choose|j: int| 0 <= j < col.len() && col[j] == p;
                assert(cur[prev.len() + j] == col[j]);
            }
        }
    }
}

/// The chunks to stream are exactly the ground-layer chunks of the square
/// around the player that are not loaded: each requested chunk lies in the
/// square and is not loaded, and each chunk of the square that is not
/// loaded is requested.
pub proof fn lemma_stream_requests_exactly_missing(cx: int, cz: int, radius: int, loaded: Set<u64>, p: ChunkPos)
    requires
        0 <= radius,
        i32::MIN <= cx - radius,
        cx + radius <= i32::MAX,
        i32::MIN <= cz - radius,
        cz + radius <= i32::MAX,
    ensures
        missing_in_square(cx, cz, radius, loaded, (2 * radius + 1) as nat).contains(p) <==> (
        in_stream_square(p, cx, cz, radius) && !loaded.contains(chunk_key(p.x, p.y, p.z))),
{
    lemma_square_sound_complete(cx, cz, radius, loaded, (2 * radius + 1) as nat);
    let res = missing_in_square(cx, cz, radius, loaded, (2 * radius + 1) as nat);
    if res.contains(p) {
        let j = choose|j: int| 0 <= j < res.len() && res[j] == p;
        assert(res[j] == p);
    }
    if in_stream_square(p, cx, cz, radius) && !loaded.contains(chunk_key(p.x, p.y, p.z)) {
        assert(p == ChunkPos { x: p.x as int as i32, y: 0, z: p.z as int as i32 });
    }
}

proof fn lemma_square_empty_when_all_loaded(cx: int, cz: int, radius: int, loaded: Set<u64>, k: nat)
    requires
        0 <= radius,
        forall|x: int, z: int|
            cx - radius <= x < cx - radius + k && cz - radius <= z <= cz + radius ==> loaded.contains(
                #[trigger] chunk_key(x as i32, 0, z as i32),
            ),
    ensures
        missing_in_square(cx, cz, radius, loaded, k).len() == 0,
    decreases k,
{
    if k > 0 {
        lemma_square_empty_when_all_loaded(cx, cz, radius, loaded, (k - 1) as nat);
        lemma_column_empty_when_all_loaded(cx - radius + k - 1, cz, radius, loaded, (2 * radius + 1) as nat);
    }
}

proof fn lemma_column_empty_when_all_loaded(x: int, cz: int, radius: int, loaded: Set<u64>, m: nat)
    requires
        forall|z: int|
            cz - radius <= z < cz - radius + m ==> loaded.contains(#[trigger] chunk_key(x as i32, 0, z as i32)),
    ensures
        missing_in_column(x, cz, radius, loaded, m).len() == 0,
    decreases m,
{
    if m > 0 {
        lemma_column_empty_when_all_loaded(x, cz, radius, loaded, (m - 1) as nat);
        let z0 = cz - radius + m - 1;
        assert(loaded.contains(chunk_key(x as i32, 0, z0 as i32)));
    }
}

/// Once every requested chunk is registered under its key (and nothing
/// loaded is forgotten), streaming around the same chunk requests nothing
/// more.
pub proof fn lemma_stream_settles(cx: int, cz: int, radius: int, loaded: Set<u64>, after: Set<u64>)
    requires
        0 <= radius,
        i32::MIN <= cx - radius,
        cx + radius <= i32::MAX,
        i32::MIN <= cz - radius,
        cz + radius <= i32::MAX,
        loaded.subset_of(after),
        forall|j: int|
            0 <= j < missing_in_square(cx, cz, radius, loaded, (2 * radius + 1) as nat).len() ==> {
                let p = #[trigger] missing_in_square(cx, cz, radius, loaded, (2 * radius + 1) as nat)[j];
                after.contains(chunk_key(p.x, p.y, p.z))
            },
    ensures
        missing_in_square(cx, cz, radius, after, (2 * radius + 1) as nat).len() == 0,
{
    let res = missing_in_square(cx, cz, radius, loaded, (2 * radius + 1) as nat);
    lemma_square_sound_complete(cx, cz, radius, loaded, (2 * radius + 1) as nat);
    assert forall|x: int, z: int|
        cx - radius <= x < cx - radius + (2 * radius + 1) && cz - radius <= z <= cz + radius implies after.contains(
        #[trigger] chunk_key(x as i32, 0, z as i32),
    ) by {
        if !loaded.contains(chunk_key(x as i32, 0, z as i32)) {
            let p = ChunkPos { x: x as i32, y: 0, z: z as i32 };
            assert(res.contains(p));
            let j = choose|j: int| 0 <= j < res.len() && res[j] == p;
            assert(after.contains(chunk_key(res[j].x, res[j].y, res[j].z)));
        }
    }
    lemma_square_empty_when_all_loaded(cx, cz, radius, after, (2 * radius + 1) as nat);
}

} // verus!
