//! Nearest forward intersection of a ray with a closed polygon's edges.
//!
//! Every edge is tested with the determinant method: a zero denominator
//! means the edge is parallel to the ray (degenerate edges fall out the
//! same way) and is skipped; otherwise the ray parameter `t1` and the
//! segment parameter `t2` are exact fractions over the denominator, and an
//! edge is hit when `t1 >= 0` and `0 <= t2 <= 1`. Among all hits the one
//! with the smallest `t1` wins, the earliest edge on a tie. All fractions
//! are kept as integer pairs with a positive denominator; no rounding
//! happens until the returned point is truncated to the fixed-point grid.

use vstd::prelude::*;
use crate::fixed::{div_trunc_i128, lemma_trunc_div_bound, trunc_div};
use crate::framebuffer::Framebuffer;

verus! {

/// Largest fixed-point coordinate magnitude the ray caster accepts.
pub const RAY_LIMIT: i64 = 16777216;

/// The polygon vertex that follows vertex `i` (wrapping around).
pub open spec fn poly_next(poly: Seq<(i64, i64)>, i: int) -> (int, int) {
    let j = if i + 1 == poly.len() {
        0
    } else {
        i + 1
    };
    (poly[j].0 as int, poly[j].1 as int)
}

/// The polygon vertex `i` as a pair of integers.
pub open spec fn poly_at(poly: Seq<(i64, i64)>, i: int) -> (int, int) {
    (poly[i].0 as int, poly[i].1 as int)
}

/// The intersection denominator of edge `i`: the cross product of the ray
/// direction and the edge direction. Zero means parallel (or degenerate).
pub open spec fn edge_den(rdx: int, rdy: int, poly: Seq<(i64, i64)>, i: int) -> int {
    let p = poly_at(poly, i);
    let q = poly_next(poly, i);
    rdx * (q.1 - p.1) - rdy * (q.0 - p.0)
}

/// The numerator of the ray parameter `t1` of edge `i`.
pub open spec fn edge_n1(rx: int, ry: int, poly: Seq<(i64, i64)>, i: int) -> int {
    let p = poly_at(poly, i);
    let q = poly_next(poly, i);
    (p.0 - rx) * (q.1 - p.1) - (p.1 - ry) * (q.0 - p.0)
}

/// The numerator of the segment parameter `t2` of edge `i`.
pub open spec fn edge_n2(rx: int, ry: int, rdx: int, rdy: int, poly: Seq<(i64, i64)>, i: int) -> int {
    let p = poly_at(poly, i);
    let q = poly_next(poly, i);
    (p.0 - rx) * rdy - (p.1 - ry) * rdx
}

/// The denominator of edge `i`, normalized positive.
pub open spec fn hit_den(rdx: int, rdy: int, poly: Seq<(i64, i64)>, i: int) -> int {
    let d = edge_den(rdx, rdy, poly, i);
    if d >= 0 {
        d
    } else {
        -d
    }
}

/// The `t1` numerator of edge `i` over the normalized denominator.
pub open spec fn hit_n1(rx: int, ry: int, rdx: int, rdy: int, poly: Seq<(i64, i64)>, i: int) -> int {
    if edge_den(rdx, rdy, poly, i) >= 0 {
        edge_n1(rx, ry, poly, i)
    } else {
        -edge_n1(rx, ry, poly, i)
    }
}

/// The `t2` numerator of edge `i` over the normalized denominator.
pub open spec fn hit_n2(rx: int, ry: int, rdx: int, rdy: int, poly: Seq<(i64, i64)>, i: int) -> int {
    if edge_den(rdx, rdy, poly, i) >= 0 {
        edge_n2(rx, ry, rdx, rdy, poly, i)
    } else {
        -edge_n2(rx, ry, rdx, rdy, poly, i)
    }
}

/// Edge `i` is a forward hit: not parallel, `t1 >= 0`, and `0 <= t2 <= 1`.
pub open spec fn edge_valid(rx: int, ry: int, rdx: int, rdy: int, poly: Seq<(i64, i64)>, i: int) -> bool {
    &&& edge_den(rdx, rdy, poly, i) != 0
    &&& hit_n1(rx, ry, rdx, rdy, poly, i) >= 0
    &&& hit_n2(rx, ry, rdx, rdy, poly, i) >= 0
    &&& hit_n2(rx, ry, rdx, rdy, poly, i) <= hit_den(rdx, rdy, poly, i)
}

/// `t1` of edge `i` is strictly smaller than `t1` of edge `j`, compared as
/// exact fractions over the normalized positive denominators.
pub open spec fn t_less(rx: int, ry: int, rdx: int, rdy: int, poly: Seq<(i64, i64)>, i: int, j: int) -> bool {
    hit_n1(rx, ry, rdx, rdy, poly, i) * hit_den(rdx, rdy, poly, j) < hit_n1(
        rx,
        ry,
        rdx,
        rdy,
        poly,
        j,
    ) * hit_den(rdx, rdy, poly, i)
}

/// The index of the winning hit among the first `n` edges: the valid edge
/// with the strictly smallest `t1`, the earliest such edge on a tie; `None`
/// when no edge among them is a hit.
pub open spec fn best_hit(rx: int, ry: int, rdx: int, rdy: int, poly: Seq<(i64, i64)>, n: int) -> Option<int>
    decreases n,
{
    if n <= 0 {
        None
    } else {
        let prev = best_hit(rx, ry, rdx, rdy, poly, n - 1);
        if !edge_valid(rx, ry, rdx, rdy, poly, n - 1) {
            prev
        } else {
            match prev {
                None => Some(n - 1),
                Some(j) => if t_less(rx, ry, rdx, rdy, poly, n - 1, j) {
                    Some(n - 1)
                } else {
                    Some(j)
                },
            }
        }
    }
}

/// The returned intersection point of edge `i`: the ray origin advanced by
/// `t1` times the direction, each coordinate truncated toward zero.
pub open spec fn hit_point(rx: int, ry: int, rdx: int, rdy: int, poly: Seq<(i64, i64)>, i: int) -> (
    int,
    int,
) {
    let n1 = hit_n1(rx, ry, rdx, rdy, poly, i);
    let d = hit_den(rdx, rdy, poly, i);
    (rx + trunc_div(rdx * n1, d), ry + trunc_div(rdy * n1, d))
}

/// The full result of the ray cast against the whole polygon.
pub open spec fn ray_hit(rx: int, ry: int, rdx: int, rdy: int, poly: Seq<(i64, i64)>) -> Option<
    (int, int),
> {
    match best_hit(rx, ry, rdx, rdy, poly, poly.len() as int) {
        None => None,
        Some(i) => Some(hit_point(rx, ry, rdx, rdy, poly, i)),
    }
}

/// No edge is a hit exactly when the whole cast misses.
pub proof fn lemma_ray_misses_iff_no_valid_edge(
    rx: int,
    ry: int,
    rdx: int,
    rdy: int,
    poly: Seq<(i64, i64)>,
    n: int,
)
    requires
        0 <= n <= poly.len(),
    ensures
        best_hit(rx, ry, rdx, rdy, poly, n) is None <==> (forall|i: int|
            0 <= i < n ==> !edge_valid(rx, ry, rdx, rdy, poly, i)),
    decreases n,
{
    if n > 0 {
        lemma_ray_misses_iff_no_valid_edge(rx, ry, rdx, rdy, poly, n - 1);
    }
}

/// The intersection point of a hit edge lies on that edge: multiplied out,
/// the ray formula for it and the segment formula for it agree.
proof fn lemma_hit_on_edge(rx: int, ry: int, rdx: int, rdy: int, poly: Seq<(i64, i64)>, i: int)
    requires
        0 <= i < poly.len(),
    ensures
        ({
            let p = poly_at(poly, i);
            let q = poly_next(poly, i);
            let d = hit_den(rdx, rdy, poly, i);
            let n1 = hit_n1(rx, ry, rdx, rdy, poly, i);
            let n2 = hit_n2(rx, ry, rdx, rdy, poly, i);
            &&& rdx * n1 == (p.0 - rx) * d + (q.0 - p.0) * n2
            &&& rdy * n1 == (p.1 - ry) * d + (q.1 - p.1) * n2
        }),
{
    let p = poly_at(poly, i);
    let q = poly_next(poly, i);
    let den = edge_den(rdx, rdy, poly, i);
    let n1 = edge_n1(rx, ry, poly, i);
    let n2 = edge_n2(rx, ry, rdx, rdy, poly, i);
    assert(rdx * n1 == (p.0 - rx) * den + (q.0 - p.0) * n2 && rdy * n1 == (p.1 - ry) * den + (
    q.1 - p.1) * n2) by (nonlinear_arith)
        requires
            den == rdx * (q.1 - p.1) - rdy * (q.0 - p.0),
            n1 == (p.0 - rx) * (q.1 - p.1) - (p.1 - ry) * (q.0 - p.0),
            n2 == (p.0 - rx) * rdy - (p.1 - ry) * rdx,
    ;
    if den < 0 {
        assert(rdx * (-n1) == (p.0 - rx) * (-den) + (q.0 - p.0) * (-n2) && rdy * (-n1) == (p.1
            - ry) * (-den) + (q.1 - p.1) * (-n2)) by (nonlinear_arith)
            requires
                rdx * n1 == (p.0 - rx) * den + (q.0 - p.0) * n2,
                rdy * n1 == (p.1 - ry) * den + (q.1 - p.1) * n2,
        ;
    }
}

impl Framebuffer {
    /// Casts the ray from `(r_px, r_py)` along `(r_dx, r_dy)` against every
    /// edge of the closed polygon and returns the nearest forward
    /// intersection point, or nothing when no edge is hit, exactly as
    /// `ray_hit` states. In particular the result is `None` if and only if
    /// no edge satisfies the hit conditions.
    pub fn intersect_ray_with_polygon(
        &self,
        r_px: i64,
        r_py: i64,
        r_dx: i64,
        r_dy: i64,
        polygon: &Vec<(i64, i64)>,
    ) -> (res: Option<(i64, i64)>)
        requires
            -(RAY_LIMIT as int) <= r_px as int <= RAY_LIMIT as int,
            -(RAY_LIMIT as int) <= r_py as int <= RAY_LIMIT as int,
            -(RAY_LIMIT as int) <= r_dx as int <= RAY_LIMIT as int,
            -(RAY_LIMIT as int) <= r_dy as int <= RAY_LIMIT as int,
            forall|i: int|
                0 <= i < polygon@.len() ==> {
                    &&& -(RAY_LIMIT as int) <= #[trigger] polygon@[i].0 as int <= RAY_LIMIT as int
                    &&& -(RAY_LIMIT as int) <= polygon@[i].1 as int <= RAY_LIMIT as int
                },
        ensures
            ({
                let hit = ray_hit(r_px as int, r_py as int, r_dx as int, r_dy as int, polygon@);
                match res {
                    Some(pt) => hit == Some((pt.0 as int, pt.1 as int)),
                    None => hit is None,
                }
            }),
            res is None <==> (forall|i: int|
                0 <= i < polygon@.len() ==> !edge_valid(
                    r_px as int,
                    r_py as int,
                    r_dx as int,
                    r_dy as int,
                    polygon@,
                    i,
                )),
    {
        let rx = r_px;
        let ry = r_py;
        let n: usize = polygon.len();
        let mut has_best: bool = false;
        let mut best_n1: i64 = 0;
        let mut best_dn: i64 = 1;
        let ghost mut best_i: int = 0;
        let mut i: usize = 0;
        while i < n
            invariant
                n == polygon@.len(),
                0 <= i <= n,
                -(RAY_LIMIT as int) <= rx as int <= RAY_LIMIT as int,
                -(RAY_LIMIT as int) <= ry as int <= RAY_LIMIT as int,
                -(RAY_LIMIT as int) <= r_dx as int <= RAY_LIMIT as int,
                -(RAY_LIMIT as int) <= r_dy as int <= RAY_LIMIT as int,
                rx == r_px,
                ry == r_py,
                forall|j: int|
                    0 <= j < polygon@.len() ==> {
                        &&& -(RAY_LIMIT as int) <= #[trigger] polygon@[j].0 as int <= RAY_LIMIT
                            as int
                        &&& -(RAY_LIMIT as int) <= polygon@[j].1 as int <= RAY_LIMIT as int
                    },
                !has_best ==> best_hit(
                    r_px as int,
                    r_py as int,
                    r_dx as int,
                    r_dy as int,
                    polygon@,
                    i as int,
                ) is None,
                has_best ==> {
                    &&& best_hit(
                        r_px as int,
                        r_py as int,
                        r_dx as int,
                        r_dy as int,
                        polygon@,
                        i as int,
                    ) == Some(best_i)
                    &&& 0 <= best_i < i as int
                    &&& edge_valid(
                        r_px as int,
                        r_py as int,
                        r_dx as int,
                        r_dy as int,
                        polygon@,
                        best_i,
                    )
                    &&& best_n1 as int == hit_n1(
                        r_px as int,
                        r_py as int,
                        r_dx as int,
                        r_dy as int,
                        polygon@,
                        best_i,
                    )
                    &&& best_dn as int == hit_den(r_dx as int, r_dy as int, polygon@, best_i)
                    &&& best_dn as int >= 1
                    &&& 0 <= best_n1 as int <= 0x10_0000_0000_0000
                    &&& best_dn as int <= 0x10_0000_0000_0000
                },
            decreases n - i,
        {
            let p: (i64, i64) = polygon[i];
            let qi: usize = if i + 1 == n {
                0
            } else {
                i + 1
            };
            let q: (i64, i64) = polygon[qi];
            let ex: i64 = q.0 - p.0;
            let ey: i64 = q.1 - p.1;
            proof {
                assert forall|a: int, b: int|
                    -(2 * (RAY_LIMIT as int)) <= a <= 2 * (RAY_LIMIT as int) && -(2 * (RAY_LIMIT
                        as int)) <= b <= 2 * (RAY_LIMIT as int) implies -(0x8_0000_0000_0000)
                    <= #[trigger] (a * b) <= 0x8_0000_0000_0000 by {
                    assert(-(0x8_0000_0000_0000) <= a * b <= 0x8_0000_0000_0000)
                        by (nonlinear_arith)
                        requires
                            -(0x200_0000) <= a <= 0x200_0000,
                            -(0x200_0000) <= b <= 0x200_0000,
                    ;
                }
            }
            let den: i64 = r_dx * ey - r_dy * ex;
            let n1: i64 = (p.0 - rx) * ey - (p.1 - ry) * ex;
            let n2: i64 = (p.0 - rx) * r_dy - (p.1 - ry) * r_dx;
            proof {
                assert(poly_at(polygon@, i as int) == (p.0 as int, p.1 as int));
                assert(poly_next(polygon@, i as int) == (q.0 as int, q.1 as int));
            }
            if den != 0 {
                let (dn, n1n, n2n): (i64, i64, i64) = if den > 0 {
                    (den, n1, n2)
                } else {
                    (-den, -n1, -n2)
                };
                if n1n >= 0 && n2n >= 0 && n2n <= dn {
                    proof {
                        if has_best {
                            assert(-(0x100_0000_0000_0000_0000_0000_0000) <= (n1n as int) * (
                            best_dn as int) <= 0x100_0000_0000_0000_0000_0000_0000 && -(
                            0x100_0000_0000_0000_0000_0000_0000) <= (best_n1 as int) * (dn
                                as int) <= 0x100_0000_0000_0000_0000_0000_0000)
                                by (nonlinear_arith)
                                requires
                                    -(0x10_0000_0000_0000) <= n1n as int <= 0x10_0000_0000_0000,
                                    0 < dn as int <= 0x10_0000_0000_0000,
                                    0 <= best_n1 as int <= 0x10_0000_0000_0000,
                                    0 < best_dn as int <= 0x10_0000_0000_0000,
                            ;
                        }
                    }
                    let better: bool = if !has_best {
                        true
                    } else {
                        (n1n as i128) * (best_dn as i128) < (best_n1 as i128) * (dn as i128)
                    };
                    if better {
                        has_best = true;
                        best_n1 = n1n;
                        best_dn = dn;
                        proof {
                            best_i = i as int;
                        }
                    }
                }
            }
            i = i + 1;
        }
        proof {
            lemma_ray_misses_iff_no_valid_edge(
                r_px as int,
                r_py as int,
                r_dx as int,
                r_dy as int,
                polygon@,
                n as int,
            );
        }
        if has_best {
            proof {
                lemma_hit_on_edge(
                    r_px as int,
                    r_py as int,
                    r_dx as int,
                    r_dy as int,
                    polygon@,
                    best_i,
                );
                let pp = poly_at(polygon@, best_i);
                let qq = poly_next(polygon@, best_i);
                let lim = 6 * (RAY_LIMIT as int);
                assert(-(lim * (best_dn as int)) <= (r_dx as int) * (best_n1 as int) <= lim * (
                best_dn as int) && -(lim * (best_dn as int)) <= (r_dy as int) * (best_n1 as int)
                    <= lim * (best_dn as int)) by (nonlinear_arith)
                    requires
                        (r_dx as int) * (best_n1 as int) == (pp.0 - r_px as int) * (best_dn
                            as int) + (qq.0 - pp.0) * hit_n2(
                            r_px as int,
                            r_py as int,
                            r_dx as int,
                            r_dy as int,
                            polygon@,
                            best_i,
                        ),
                        (r_dy as int) * (best_n1 as int) == (pp.1 - r_py as int) * (best_dn
                            as int) + (qq.1 - pp.1) * hit_n2(
                            r_px as int,
                            r_py as int,
                            r_dx as int,
                            r_dy as int,
                            polygon@,
                            best_i,
                        ),
                        0 <= hit_n2(
                            r_px as int,
                            r_py as int,
                            r_dx as int,
                            r_dy as int,
                            polygon@,
                            best_i,
                        ) <= best_dn as int,
                        best_dn as int >= 1,
                        lim == 6 * (RAY_LIMIT as int),
                        RAY_LIMIT as int == 16777216,
                        -(2 * (RAY_LIMIT as int)) <= pp.0 - r_px as int <= 2 * (RAY_LIMIT
                            as int),
                        -(2 * (RAY_LIMIT as int)) <= pp.1 - r_py as int <= 2 * (RAY_LIMIT
                            as int),
                        -(2 * (RAY_LIMIT as int)) <= qq.0 - pp.0 <= 2 * (RAY_LIMIT as int),
                        -(2 * (RAY_LIMIT as int)) <= qq.1 - pp.1 <= 2 * (RAY_LIMIT as int),
                ;
                lemma_trunc_div_bound(
                    (r_dx as int) * (best_n1 as int),
                    best_dn as int,
                    6 * (RAY_LIMIT as int),
                );
                lemma_trunc_div_bound(
                    (r_dy as int) * (best_n1 as int),
                    best_dn as int,
                    6 * (RAY_LIMIT as int),
                );
            }
            let ox: i128 = div_trunc_i128((r_dx as i128) * (best_n1 as i128), best_dn as i128);
            let oy: i128 = div_trunc_i128((r_dy as i128) * (best_n1 as i128), best_dn as i128);
            Some((rx + ox as i64, ry + oy as i64))
        } else {
            None
        }
    }
}

} // verus!
