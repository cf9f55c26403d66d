//! Rotation of a point set about its centroid by three Euler angles.
//!
//! The rotation is applied in the fixed order X, then Y, then Z; each axis
//! rotation is a plane rotation of the two other coordinates. The caller
//! supplies the sine and cosine of each angle in fixed point (a full unit
//! is `fixed::SCALE`), which is where the transcendental part of the work
//! stays; everything here is exact integer arithmetic, one truncating
//! division per rotated coordinate.

use vstd::prelude::*;
use crate::fixed::{div_trunc_i64, lemma_trunc_div_bound, lemma_trunc_div_exact, trunc_div, SCALE};
use crate::framebuffer::Framebuffer;
use crate::shade::VEC_LIMIT;

verus! {

/// Largest fixed-point coordinate magnitude the rotator accepts.
pub const ROT_LIMIT: i64 = 16777216;

/// Most points a rotated set may hold.
pub const MAX_POINTS: usize = 65536;

/// The componentwise sum of a sequence of fixed-point points.
pub open spec fn sum3(s: Seq<(i64, i64, i64)>) -> (int, int, int)
    decreases s.len(),
{
    if s.len() == 0 {
        (0, 0, 0)
    } else {
        let r = sum3(s.drop_last());
        let p = s.last();
        (r.0 + p.0, r.1 + p.1, r.2 + p.2)
    }
}

/// The centroid of a point set: the componentwise arithmetic mean, each
/// component truncated toward zero.
pub open spec fn centroid3(s: Seq<(i64, i64, i64)>) -> (int, int, int) {
    let t = sum3(s);
    (
        trunc_div(t.0, s.len() as int),
        trunc_div(t.1, s.len() as int),
        trunc_div(t.2, s.len() as int),
    )
}

/// One fixed-point plane rotation: `(u, v)` turned by the angle whose sine
/// and cosine are `s` and `c`, each coordinate truncated toward zero.
pub open spec fn rot2(u: int, v: int, s: int, c: int) -> (int, int) {
    (trunc_div(u * c - v * s, SCALE as int), trunc_div(u * s + v * c, SCALE as int))
}

/// One point rotated about the centre `ctr`: translate to the origin,
/// rotate about X, then Y, then Z, translate back. The Y-axis rotation
/// turns the opposite way (its sine enters negated), matching the fixed
/// composition order of the pipeline.
pub open spec fn rotate_point(
    p: (int, int, int),
    ctr: (int, int, int),
    sx: int,
    cx: int,
    sy: int,
    cy: int,
    sz: int,
    cz: int,
) -> (int, int, int) {
    let x0 = p.0 - ctr.0;
    let y0 = p.1 - ctr.1;
    let z0 = p.2 - ctr.2;
    let (y1, z1) = rot2(y0, z0, sx, cx);
    let (x2, z2) = rot2(x0, z1, -sy, cy);
    let (x3, y3) = rot2(x2, y1, sz, cz);
    (x3 + ctr.0, y3 + ctr.1, z2 + ctr.2)
}

/// Rotating by zero angles is the identity: with sine zero and cosine one
/// every plane rotation returns its operands exactly, and the two
/// translations cancel, whatever the centre is.
pub proof fn lemma_rotate_identity(p: (int, int, int), ctr: (int, int, int))
    ensures
        rotate_point(p, ctr, 0, SCALE as int, 0, SCALE as int, 0, SCALE as int) == p,
{
    lemma_rot2_identity(p.1 - ctr.1, p.2 - ctr.2);
    lemma_rot2_identity(p.0 - ctr.0, p.2 - ctr.2);
    lemma_rot2_identity(p.0 - ctr.0, p.1 - ctr.1);
}

/// A plane rotation with sine zero and cosine one returns its operands.
pub proof fn lemma_rot2_identity(u: int, v: int)
    ensures
        rot2(u, v, 0, SCALE as int) == (u, v),
        rot2(u, v, -0, SCALE as int) == (u, v),
{
    assert(u * (SCALE as int) - v * 0 == u * (SCALE as int) && u * 0 + v * (SCALE as int) == v
        * (SCALE as int)) by (nonlinear_arith);
    lemma_trunc_div_exact(u, SCALE as int);
    lemma_trunc_div_exact(v, SCALE as int);
}

impl Framebuffer {
    /// One exec plane rotation step, exactly `rot2`; the result magnitudes
    /// are bounded by the sum of the operand bounds.
    fn rot_step(u: i64, v: i64, s: i64, c: i64, Ghost(m): Ghost<int>) -> (r: (i64, i64))
        requires
            -(SCALE as int) <= s as int <= SCALE as int,
            -(SCALE as int) <= c as int <= SCALE as int,
            0 <= m <= 0x1000_0000,
            -m <= u as int <= m,
            -m <= v as int <= m,
        ensures
            (r.0 as int, r.1 as int) == rot2(u as int, v as int, s as int, c as int),
            -(2 * m) <= r.0 as int <= 2 * m,
            -(2 * m) <= r.1 as int <= 2 * m,
    {
        proof {
            assert(-(m * (SCALE as int)) <= (u as int) * (c as int) <= m * (SCALE as int) && -(
            m * (SCALE as int)) <= (v as int) * (s as int) <= m * (SCALE as int) && -(m * (
            SCALE as int)) <= (u as int) * (s as int) <= m * (SCALE as int) && -(m * (SCALE
                as int)) <= (v as int) * (c as int) <= m * (SCALE as int) && -(2 * m * (SCALE
                as int)) <= (u as int) * (c as int) - (v as int) * (s as int) <= 2 * m * (SCALE
                as int) && -(2 * m * (SCALE as int)) <= (u as int) * (s as int) + (v as int) * (
            c as int) <= 2 * m * (SCALE as int) && 2 * m * (SCALE as int) <= 0x2000_0000_0000)
                by (nonlinear_arith)
                requires
                    -m <= u as int <= m,
                    -m <= v as int <= m,
                    -(SCALE as int) <= s as int <= SCALE as int,
                    -(SCALE as int) <= c as int <= SCALE as int,
                    0 <= m <= 0x1000_0000,
                    SCALE as int == 65536,
            ;
            lemma_trunc_div_bound(
                (u as int) * (c as int) - (v as int) * (s as int),
                SCALE as int,
                2 * m,
            );
            lemma_trunc_div_bound(
                (u as int) * (s as int) + (v as int) * (c as int),
                SCALE as int,
                2 * m,
            );
        }
        let a: i64 = u * c - v * s;
        let b: i64 = u * s + v * c;
        (div_trunc_i64(a, SCALE), div_trunc_i64(b, SCALE))
    }

    /// Rotates every point of `vertices` about the set's centroid, by the
    /// three angles whose fixed-point sines and cosines are given, in the
    /// order X, then Y, then Z. The result has the same length and order,
    /// and every point is exactly `rotate_point` of the input point.
    pub fn rotate_cube(
        &self,
        vertices: &Vec<(i64, i64, i64)>,
        sin_x: i64,
        cos_x: i64,
        sin_y: i64,
        cos_y: i64,
        sin_z: i64,
        cos_z: i64,
    ) -> (out: Vec<(i64, i64, i64)>)
        requires
            1 <= vertices@.len() <= MAX_POINTS as int,
            forall|i: int|
                0 <= i < vertices@.len() ==> {
                    &&& -(ROT_LIMIT as int) <= #[trigger] vertices@[i].0 as int <= ROT_LIMIT as int
                    &&& -(ROT_LIMIT as int) <= vertices@[i].1 as int <= ROT_LIMIT as int
                    &&& -(ROT_LIMIT as int) <= vertices@[i].2 as int <= ROT_LIMIT as int
                },
            -(SCALE as int) <= sin_x as int <= SCALE as int,
            -(SCALE as int) <= cos_x as int <= SCALE as int,
            -(SCALE as int) <= sin_y as int <= SCALE as int,
            -(SCALE as int) <= cos_y as int <= SCALE as int,
            -(SCALE as int) <= sin_z as int <= SCALE as int,
            -(SCALE as int) <= cos_z as int <= SCALE as int,
        ensures
            out@.len() == vertices@.len(),
            forall|i: int|
                0 <= i < vertices@.len() ==> (
                #[trigger] out@[i].0 as int,
                out@[i].1 as int,
                out@[i].2 as int,
                ) == rotate_point(
                    (vertices@[i].0 as int, vertices@[i].1 as int, vertices@[i].2 as int),
                    centroid3(vertices@),
                    sin_x as int,
                    cos_x as int,
                    sin_y as int,
                    cos_y as int,
                    sin_z as int,
                    cos_z as int,
                ),
            forall|i: int|
                0 <= i < out@.len() ==> {
                    &&& -(VEC_LIMIT as int) <= #[trigger] out@[i].0 as int <= VEC_LIMIT as int
                    &&& -(VEC_LIMIT as int) <= out@[i].1 as int <= VEC_LIMIT as int
                    &&& -(VEC_LIMIT as int) <= out@[i].2 as int <= VEC_LIMIT as int
                },
    {
        let n: usize = vertices.len();
        let mut sum_x: i64 = 0;
        let mut sum_y: i64 = 0;
        let mut sum_z: i64 = 0;
        let mut i: usize = 0;
        while i < n
            invariant
                n == vertices@.len(),
                1 <= n <= MAX_POINTS as int,
                0 <= i <= n,
                forall|j: int|
                    0 <= j < vertices@.len() ==> {
                        &&& -(ROT_LIMIT as int) <= #[trigger] vertices@[j].0 as int <= ROT_LIMIT
                            as int
                        &&& -(ROT_LIMIT as int) <= vertices@[j].1 as int <= ROT_LIMIT as int
                        &&& -(ROT_LIMIT as int) <= vertices@[j].2 as int <= ROT_LIMIT as int
                    },
                (sum_x as int, sum_y as int, sum_z as int) == sum3(vertices@.take(i as int)),
                -(i as int) * (ROT_LIMIT as int) <= sum_x as int <= (i as int) * (ROT_LIMIT
                    as int),
                -(i as int) * (ROT_LIMIT as int) <= sum_y as int <= (i as int) * (ROT_LIMIT
                    as int),
                -(i as int) * (ROT_LIMIT as int) <= sum_z as int <= (i as int) * (ROT_LIMIT
                    as int),
            decreases n - i,
        {
            let p = vertices[i];
            proof {
                assert(vertices@.take(i as int + 1).drop_last() =~= vertices@.take(i as int));
                assert(vertices@.take(i as int + 1).last() == vertices@[i as int]);
                assert(-(i as int) * (ROT_LIMIT as int) - (ROT_LIMIT as int) == -((i as int
                    + 1) * (ROT_LIMIT as int)) && (i as int) * (ROT_LIMIT as int) + (ROT_LIMIT
                    as int) == (i as int + 1) * (ROT_LIMIT as int)) by (nonlinear_arith);
                assert((i as int + 1) * (ROT_LIMIT as int) <= (MAX_POINTS as int) * (ROT_LIMIT
                    as int)) by (nonlinear_arith)
                    requires
                        i as int + 1 <= MAX_POINTS as int,
                ;
            }
            sum_x = sum_x + p.0;
            sum_y = sum_y + p.1;
            sum_z = sum_z + p.2;
            i = i + 1;
        }
        proof {
            assert(vertices@.take(n as int) =~= vertices@);
            lemma_trunc_div_bound(sum_x as int, n as int, ROT_LIMIT as int);
            lemma_trunc_div_bound(sum_y as int, n as int, ROT_LIMIT as int);
            lemma_trunc_div_bound(sum_z as int, n as int, ROT_LIMIT as int);
        }
        let cx_: i64 = div_trunc_i64(sum_x, n as i64);
        let cy_: i64 = div_trunc_i64(sum_y, n as i64);
        let cz_: i64 = div_trunc_i64(sum_z, n as i64);
        let ghost ctr = centroid3(vertices@);
        let mut out: Vec<(i64, i64, i64)> = Vec::new();
        let mut k: usize = 0;
        while k < n
            invariant
                n == vertices@.len(),
                0 <= k <= n,
                out@.len() == k,
                forall|j: int|
                    0 <= j < vertices@.len() ==> {
                        &&& -(ROT_LIMIT as int) <= #[trigger] vertices@[j].0 as int <= ROT_LIMIT
                            as int
                        &&& -(ROT_LIMIT as int) <= vertices@[j].1 as int <= ROT_LIMIT as int
                        &&& -(ROT_LIMIT as int) <= vertices@[j].2 as int <= ROT_LIMIT as int
                    },
                ctr == centroid3(vertices@),
                -(ROT_LIMIT as int) <= cx_ as int <= ROT_LIMIT as int,
                -(ROT_LIMIT as int) <= cy_ as int <= ROT_LIMIT as int,
                -(ROT_LIMIT as int) <= cz_ as int <= ROT_LIMIT as int,
                (cx_ as int, cy_ as int, cz_ as int) == ctr,
                -(SCALE as int) <= sin_x as int <= SCALE as int,
                -(SCALE as int) <= cos_x as int <= SCALE as int,
                -(SCALE as int) <= sin_y as int <= SCALE as int,
                -(SCALE as int) <= cos_y as int <= SCALE as int,
                -(SCALE as int) <= sin_z as int <= SCALE as int,
                -(SCALE as int) <= cos_z as int <= SCALE as int,
                forall|j: int|
                    0 <= j < k ==> (
                    #[trigger] out@[j].0 as int,
                    out@[j].1 as int,
                    out@[j].2 as int,
                    ) == rotate_point(
                        (vertices@[j].0 as int, vertices@[j].1 as int, vertices@[j].2 as int),
                        ctr,
                        sin_x as int,
                        cos_x as int,
                        sin_y as int,
                        cos_y as int,
                        sin_z as int,
                        cos_z as int,
                    ),
                forall|j: int|
                    0 <= j < k ==> {
                        &&& -(VEC_LIMIT as int) <= #[trigger] out@[j].0 as int <= VEC_LIMIT as int
                        &&& -(VEC_LIMIT as int) <= out@[j].1 as int <= VEC_LIMIT as int
                        &&& -(VEC_LIMIT as int) <= out@[j].2 as int <= VEC_LIMIT as int
                    },
            decreases n - k,
        {
            let p = vertices[k];
            let x0: i64 = p.0 - cx_;
            let y0: i64 = p.1 - cy_;
            let z0: i64 = p.2 - cz_;
            let (y1, z1) = Self::rot_step(y0, z0, sin_x, cos_x, Ghost(2 * (ROT_LIMIT as int)));
            let (x2, z2) = Self::rot_step(x0, z1, -sin_y, cos_y, Ghost(4 * (ROT_LIMIT as int)));
            let (x3, y3) = Self::rot_step(x2, y1, sin_z, cos_z, Ghost(8 * (ROT_LIMIT as int)));
            out.push((x3 + cx_, y3 + cy_, z2 + cz_));
            k = k + 1;
        }
        out
    }
}

} // verus!
