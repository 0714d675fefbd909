//! The integer parts of chunk meshing: the tangent axes of each face and
//! the index buffer of a list of quads.

use vstd::prelude::*;

verus! {

/// An integer 3-vector.
pub type Axis = (i32, i32, i32);

/// The cross product `a × b`.
pub open spec fn cross(a: (int, int, int), b: (int, int, int)) -> (int, int, int) {
    (a.1 * b.2 - a.2 * b.1, a.2 * b.0 - a.0 * b.2, a.0 * b.1 - a.1 * b.0)
}

/// The tangent axes `(u, v)` of the face with outward normal `n`, chosen
/// per direction so that `u × v == n` (sharing one pair between the two
/// signs of an axis would flip the winding of one of them); any other
/// vector gets `(X, Y)`.
pub open spec fn tangents_of(n: Axis) -> (Axis, Axis) {
    if n == (1i32, 0i32, 0i32) {
        ((0, 1, 0), (0, 0, 1))
    } else if n == (-1i32, 0i32, 0i32) {
        ((0, 0, 1), (0, 1, 0))
    } else if n == (0i32, 1i32, 0i32) {
        ((0, 0, 1), (1, 0, 0))
    } else if n == (0i32, -1i32, 0i32) {
        ((1, 0, 0), (0, 0, 1))
    } else if n == (0i32, 0i32, 1i32) {
        ((1, 0, 0), (0, 1, 0))
    } else if n == (0i32, 0i32, -1i32) {
        ((0, 1, 0), (1, 0, 0))
    } else {
        ((1, 0, 0), (0, 1, 0))
    }
}

/// Tangent axes `(u, v)` for a face with outward normal `normal`.
pub fn face_tangents(normal: Axis) -> (r: (Axis, Axis))
    ensures
        r == tangents_of(normal),
{
    let (x, y, z) = normal;
    if x == 1 && y == 0 && z == 0 {
        ((0, 1, 0), (0, 0, 1))
    } else if x == -1 && y == 0 && z == 0 {
        ((0, 0, 1), (0, 1, 0))
    } else if x == 0 && y == 1 && z == 0 {
        ((0, 0, 1), (1, 0, 0))
    } else if x == 0 && y == -1 && z == 0 {
        ((1, 0, 0), (0, 0, 1))
    } else if x == 0 && y == 0 && z == 1 {
        ((1, 0, 0), (0, 1, 0))
    } else if x == 0 && y == 0 && z == -1 {
        ((0, 1, 0), (1, 0, 0))
    } else {
        ((1, 0, 0), (0, 1, 0))
    }
}

/// For each of the six face directions the tangent axes span the face with
/// the right orientation: `u × v` is the outward normal.
pub proof fn lemma_tangents_orient_faces(d: int)
    requires
        0 <= d < 6,
    ensures
        ({
            let (nx, ny, nz) = crate::rendering::culling::face_dir(d);
            let n = (nx as i32, ny as i32, nz as i32);
            let (u, v) = tangents_of(n);
            cross((u.0 as int, u.1 as int, u.2 as int), (v.0 as int, v.1 as int, v.2 as int)) == (
                nx,
                ny,
                nz,
            )
        }),
{
    let (nx, ny, nz) = crate::rendering::culling::face_dir(d);
    let n = (nx as i32, ny as i32, nz as i32);
    let (u, v) = tangents_of(n);
    let ui = (u.0 as int, u.1 as int, u.2 as int);
    let vi = (v.0 as int, v.1 as int, v.2 as int);
    if d == 0 {
        assert(n == (1i32, 0i32, 0i32));
        assert(ui == (0int, 1int, 0int) && vi == (0int, 0int, 1int));
        assert(cross((0int, 1int, 0int), (0int, 0int, 1int)) == (nx, ny, nz));
    } else if d == 1 {
        assert(n == (-1i32, 0i32, 0i32));
        assert(ui == (0int, 0int, 1int) && vi == (0int, 1int, 0int));
        assert(cross((0int, 0int, 1int), (0int, 1int, 0int)) == (nx, ny, nz));
    } else if d == 2 {
        assert(n == (0i32, 1i32, 0i32));
        assert(ui == (0int, 0int, 1int) && vi == (1int, 0int, 0int));
        assert(cross((0int, 0int, 1int), (1int, 0int, 0int)) == (nx, ny, nz));
    } else if d == 3 {
        assert(n == (0i32, -1i32, 0i32));
        assert(ui == (1int, 0int, 0int) && vi == (0int, 0int, 1int));
        assert(cross((1int, 0int, 0int), (0int, 0int, 1int)) == (nx, ny, nz));
    } else if d == 4 {
        assert(n == (0i32, 0i32, 1i32));
        assert(ui == (1int, 0int, 0int) && vi == (0int, 1int, 0int));
        assert(cross((1int, 0int, 0int), (0int, 1int, 0int)) == (nx, ny, nz));
    } else {
        assert(n == (0i32, 0i32, -1i32));
        assert(ui == (0int, 1int, 0int) && vi == (1int, 0int, 0int));
        assert(cross((0int, 1int, 0int), (1int, 0int, 0int)) == (nx, ny, nz));
    }
}

/// The six indices of quad `k` (vertices `4k` to `4k + 3`): the triangles
/// `(0, 1, 2)` and `(2, 3, 0)` of its corners.
pub open spec fn quad_index(i: int) -> u32 {
    let k = i / 6;
    let j = i % 6;
    (4 * k + if j == 0 || j == 5 {
        0int
    } else if j == 1 {
        1int
    } else if j == 2 || j == 3 {
        2int
    } else {
        3int
    }) as u32
}

/// The triangle index buffer of `quad_count` quads, four vertices each.
pub fn quad_indices(quad_count: u32) -> (r: Vec<u32>)
    requires
        4 * quad_count <= u32::MAX,
    ensures
        r@.len() == 6 * quad_count,
        forall|i: int| 0 <= i < 6 * quad_count ==> #[trigger] r@[i] == quad_index(i),
{
    let mut indices: Vec<u32> = Vec::new();
    let mut vertex_index: u32 = 0;
    let mut q: u32 = 0;
    while q < quad_count
        invariant
            4 * quad_count <= u32::MAX,
            0 <= q <= quad_count,
            vertex_index == 4 * q,
            indices@.len() == 6 * q,
            forall|i: int| 0 <= i < 6 * q ==> #[trigger] indices@[i] == quad_index(i),
        decreases quad_count - q,
    {
        let ghost prev = indices@;
        indices.push(vertex_index);
        indices.push(vertex_index + 1);
        indices.push(vertex_index + 2);
        indices.push(vertex_index + 2);
        indices.push(vertex_index + 3);
        indices.push(vertex_index);
        proof {
            assert forall|i: int| 0 <= i < 6 * (q + 1) implies #[trigger] indices@[i] == quad_index(i) by {
                if i >= 6 * q {
                    let j = i - 6 * q;
                    assert(i / 6 == q && i % 6 == j) by (nonlinear_arith)
                        requires
                            i == 6 * q + j,
                            0 <= j < 6,
                    ;
                } else {
                    assert(indices@[i] == prev[i]);
                }
            }
        }
        vertex_index = vertex_index + 4;
        q = q + 1;
    }
    indices
}

} // verus!
