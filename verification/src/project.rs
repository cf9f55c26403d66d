//! Fixed-viewer perspective projection of a 3D point onto the screen.
//!
//! `screen_x = round(x * fov / (z + viewer_distance) + width / 2)` and
//! likewise for `screen_y` with the height; the rounding is to the nearest
//! integer with ties away from zero. The whole computation is carried out
//! as one exact rational division, stated by `project_coord`.

use vstd::prelude::*;
use vstd::arithmetic::div_mod::{lemma_div_by_multiple, lemma_div_denominator};
use crate::fixed::{div_round_i64, round_div};
use crate::framebuffer::Framebuffer;
use crate::line::COORD_LIMIT;

verus! {

/// One screen coordinate of the projection: the exact rational
/// `v * fov / (z + vd) + half_of / 2` rounded to the nearest integer,
/// ties away from zero.
pub open spec fn project_coord(v: int, fov: int, z: int, vd: int, half_of: int) -> int {
    round_div(2 * v * fov + half_of * (z + vd), 2 * (z + vd))
}

/// Both screen coordinates of the projected point `(x, y, z)` on a
/// `w x h` screen.
pub open spec fn project_pt(x: int, y: int, z: int, fov: int, vd: int, w: int, h: int) -> (
    int,
    int,
) {
    (project_coord(x, fov, z, vd, w), project_coord(y, fov, z, vd, h))
}

/// The normalized half division: for a positive scale `dp`,
/// `(2*(n*dp) + 2*dp) / (2*(2*dp)) == (n + 1) / 2`.
proof fn lemma_round_div_half_pos(n: int, dp: int)
    requires
        dp >= 1,
        n >= 0,
    ensures
        (2 * (n * dp) + 2 * dp) / (2 * (2 * dp)) == (n + 1) / 2,
{
    let x = 2 * (n * dp) + 2 * dp;
    assert(x == (n + 1) * (2 * dp) && x >= 0) by (nonlinear_arith)
        requires
            dp >= 1,
            n >= 0,
            x == 2 * (n * dp) + 2 * dp,
    ;
    lemma_div_denominator(x, 2 * dp, 2);
    lemma_div_by_multiple(n + 1, 2 * dp);
    assert((2 * dp) * 2 == 2 * (2 * dp));
}

/// Rounding `n / 2` via `round_div` of the scaled fraction `n*d / 2*d`
/// gives `(n + 1) / 2`, whatever nonzero scale `d` is used.
proof fn lemma_round_div_half(n: int, d: int)
    requires
        d != 0,
        n >= 0,
    ensures
        round_div(n * d, 2 * d) == (n + 1) / 2,
{
    if d > 0 {
        assert(n * d >= 0) by (nonlinear_arith)
            requires
                n >= 0,
                d >= 1,
        ;
        lemma_round_div_half_pos(n, d);
        assert(round_div(n * d, 2 * d) == (2 * (n * d) + 2 * d) / (2 * (2 * d)));
    } else {
        let dp = -d;
        assert(-(n * d) == n * dp && n * dp >= 0) by (nonlinear_arith)
            requires
                n >= 0,
                dp == -d,
                d <= -1,
        ;
        lemma_round_div_half_pos(n, dp);
        assert(round_div(n * d, 2 * d) == (2 * (n * dp) + 2 * dp) / (2 * (2 * dp)));
    }
}

impl Framebuffer {
    /// Projects the 3D point `(x, y, z)` to screen coordinates under field
    /// of view `fov` and viewer distance `viewer_distance`, exactly as
    /// `project_pt` states. The caller keeps `z + viewer_distance` away
    /// from zero and the projected point within the coordinate limit.
    pub fn project_3d_to_2d(
        &self,
        x: isize,
        y: isize,
        z: isize,
        fov: isize,
        viewer_distance: isize,
    ) -> (p: (isize, isize))
        requires
            self.width as int <= COORD_LIMIT as int,
            self.height as int <= COORD_LIMIT as int,
            -(COORD_LIMIT as int) <= x as int <= COORD_LIMIT as int,
            -(COORD_LIMIT as int) <= y as int <= COORD_LIMIT as int,
            -(COORD_LIMIT as int) <= z as int <= COORD_LIMIT as int,
            -(COORD_LIMIT as int) <= fov as int <= COORD_LIMIT as int,
            -(COORD_LIMIT as int) <= viewer_distance as int <= COORD_LIMIT as int,
            z as int + viewer_distance as int != 0,
            ({
                let pt = project_pt(
                    x as int,
                    y as int,
                    z as int,
                    fov as int,
                    viewer_distance as int,
                    self.width as int,
                    self.height as int,
                );
                &&& -(COORD_LIMIT as int) <= pt.0 <= COORD_LIMIT as int
                &&& -(COORD_LIMIT as int) <= pt.1 <= COORD_LIMIT as int
            }),
        ensures
            (p.0 as int, p.1 as int) == project_pt(
                x as int,
                y as int,
                z as int,
                fov as int,
                viewer_distance as int,
                self.width as int,
                self.height as int,
            ),
    {
        let cl: i64 = COORD_LIMIT;
        let den: i64 = (z as i64) + (viewer_distance as i64);
        let w64: i64 = self.width as i64;
        let h64: i64 = self.height as i64;
        proof {
            assert(-(2 * (cl as int) * (cl as int)) <= 2 * (x as int) * (fov as int) <= 2 * (
            cl as int) * (cl as int) && -(2 * (cl as int) * (cl as int)) <= 2 * (y as int) * (
            fov as int) <= 2 * (cl as int) * (cl as int) && -(2 * (cl as int) * (cl as int))
                <= (w64 as int) * (den as int) <= 2 * (cl as int) * (cl as int) && -(2 * (
            cl as int) * (cl as int)) <= (h64 as int) * (den as int) <= 2 * (cl as int) * (
            cl as int)) by (nonlinear_arith)
                requires
                    -(cl as int) <= x as int <= cl as int,
                    -(cl as int) <= y as int <= cl as int,
                    -(cl as int) <= fov as int <= cl as int,
                    0 <= w64 as int <= cl as int,
                    0 <= h64 as int <= cl as int,
                    -(2 * (cl as int)) <= den as int <= 2 * (cl as int),
                    cl == 16777216,
            ;
        }
        let numx: i64 = 2 * (x as i64) * (fov as i64) + w64 * den;
        let numy: i64 = 2 * (y as i64) * (fov as i64) + h64 * den;
        let px: i64 = div_round_i64(numx, 2 * den);
        let py: i64 = div_round_i64(numy, 2 * den);
        (px as isize, py as isize)
    }
}

/// Projecting the model-space origin lands in the middle of the screen for
/// every field of view and every nonzero viewer distance: the two screen
/// coordinates are `width / 2` and `height / 2`, each rounded up at the
/// half (the rounding is ties away from zero).
pub proof fn lemma_project_origin_centered(fov: int, vd: int, w: int, h: int)
    requires
        vd != 0,
        w >= 0,
        h >= 0,
    ensures
        project_pt(0, 0, 0, fov, vd, w, h) == ((w + 1) / 2, (h + 1) / 2),
{
    lemma_round_div_half(w, vd);
    lemma_round_div_half(h, vd);
    assert(2 * 0 * fov + w * (0 + vd) == w * vd && 2 * 0 * fov + h * (0 + vd) == h * vd)
        by (nonlinear_arith);
    assert(2 * (0 + vd) == 2 * vd);
}

} // verus!
