//! Triangle rasterization: a wireframe outline and a solid scanline fill.
//!
//! `fill_triangle` sorts the three vertices by ascending row (stable, so
//! ties keep their argument order), computes one exact rational slope per
//! edge, and paints one horizontal span per row in two parts: from the top
//! vertex down to the middle vertex, then on to the bottom vertex, while
//! the long edge's span end keeps advancing with its own slope. Span ends
//! are the slope-stepped positions truncated toward zero, exactly as
//! `span_x` states.

use vstd::prelude::*;
use crate::fixed::{div_trunc_i64, lemma_trunc_div_bound, trunc_div};
use crate::framebuffer::{fb_wf, in_bounds, put_pixel, Framebuffer};
use crate::line::{line_paint, COORD_LIMIT};

verus! {

/// The buffer after writing `c` at every column of `[lo, hi]` in row `y`
/// (all of them in bounds when `0 <= y < h` and `0 <= lo`, `hi < w`).
pub open spec fn row_paint(buf: Seq<u32>, w: int, h: int, y: int, lo: int, hi: int, c: u32) -> Seq<
    u32,
>
    decreases hi + 1 - lo,
{
    if lo > hi {
        buf
    } else {
        row_paint(put_pixel(buf, w, h, lo, y, c), w, h, y, lo + 1, hi, c)
    }
}

/// The buffer after one scanline: nothing when row `y` is outside the
/// buffer; otherwise the two ends are ordered ascending, clamped to
/// `[0, w - 1]`, and the inclusive span between them is painted.
pub open spec fn scanline_paint(
    buf: Seq<u32>,
    w: int,
    h: int,
    y: int,
    xs: int,
    xe: int,
    c: u32,
) -> Seq<u32> {
    if 0 <= y < h {
        let lo = if xs < xe {
            xs
        } else {
            xe
        };
        let hi = if xs < xe {
            xe
        } else {
            xs
        };
        let lo2 = if lo > 0 {
            lo
        } else {
            0
        };
        let hi2 = if hi < w - 1 {
            hi
        } else {
            w - 1
        };
        row_paint(buf, w, h, y, lo2, hi2, c)
    } else {
        buf
    }
}

/// The three vertices ordered by ascending second coordinate, stably: equal
/// rows keep their argument order, as a stable sort of `[v0, v1, v2]` does.
pub open spec fn sort_tri_y(v0: (int, int), v1: (int, int), v2: (int, int)) -> (
    (int, int),
    (int, int),
    (int, int),
) {
    let a0 = if v1.1 < v0.1 {
        v1
    } else {
        v0
    };
    let a1 = if v1.1 < v0.1 {
        v0
    } else {
        v1
    };
    if v2.1 < a0.1 {
        (v2, a0, a1)
    } else if v2.1 < a1.1 {
        (a0, v2, a1)
    } else {
        (a0, a1, v2)
    }
}

/// The slope of the edge from `p` to `q` as an exact fraction
/// (numerator, positive denominator); an edge with no vertical extent
/// contributes slope zero.
pub open spec fn edge_slope(p: (int, int), q: (int, int)) -> (int, int) {
    if q.1 == p.1 {
        (0, 1)
    } else {
        (q.0 - p.0, q.1 - p.1)
    }
}

/// The span end after `k` slope steps from base column `bx`: the exact
/// rational `bx + k * num / den` truncated toward zero.
pub open spec fn span_x(bx: int, num: int, den: int, k: int) -> int {
    trunc_div(bx * den + k * num, den)
}

/// The buffer after painting rows `y_start + k`, ..., `y_start + n - 1`,
/// each row's span running between the two slope-stepped ends.
pub open spec fn fill_rows(
    buf: Seq<u32>,
    w: int,
    h: int,
    c: u32,
    y_start: int,
    n: int,
    k: int,
    bx1: int,
    num1: int,
    den1: int,
    off1: int,
    bx2: int,
    num2: int,
    den2: int,
    off2: int,
) -> Seq<u32>
    decreases n - k,
{
    if k >= n {
        buf
    } else {
        let xs = span_x(bx1, num1, den1, k + off1);
        let xe = span_x(bx2, num2, den2, k + off2);
        fill_rows(
            scanline_paint(buf, w, h, y_start + k, xs, xe, c),
            w,
            h,
            c,
            y_start,
            n,
            k + 1,
            bx1,
            num1,
            den1,
            off1,
            bx2,
            num2,
            den2,
            off2,
        )
    }
}

/// The buffer after the whole solid fill of the triangle `v0 v1 v2`: sort
/// the vertices by row into top `u0`, middle `u1`, bottom `u2`; paint the
/// rows of `[u0.1, u1.1]` between the `u0 u1` edge and the `u0 u2` edge,
/// then the rows of `[u1.1, u2.1]` between the `u1 u2` edge and the
/// continuation of the `u0 u2` edge.
pub open spec fn fill_tri_paint(
    buf: Seq<u32>,
    w: int,
    h: int,
    v0: (int, int),
    v1: (int, int),
    v2: (int, int),
    c: u32,
) -> Seq<u32> {
    let (u0, u1, u2) = sort_tri_y(v0, v1, v2);
    let s01 = edge_slope(u0, u1);
    let s02 = edge_slope(u0, u2);
    let s12 = edge_slope(u1, u2);
    let n_up = u1.1 - u0.1 + 1;
    let n_low = u2.1 - u1.1 + 1;
    let up = fill_rows(
        buf,
        w,
        h,
        c,
        u0.1,
        n_up,
        0,
        u0.0,
        s01.0,
        s01.1,
        0,
        u0.0,
        s02.0,
        s02.1,
        0,
    );
    fill_rows(up, w, h, c, u1.1, n_low, 0, u1.0, s12.0, s12.1, 0, u0.0, s02.0, s02.1, n_up)
}

/// A span end stays within five coordinate limits of the origin whenever
/// the step count does not run more than one step past the edge's own
/// vertical extent (the long edge is stepped exactly once past its end).
pub proof fn lemma_span_x_bound(bx: int, num: int, den: int, k: int)
    requires
        -(COORD_LIMIT as int) <= bx <= COORD_LIMIT as int,
        1 <= den,
        -2 * (COORD_LIMIT as int) <= num <= 2 * (COORD_LIMIT as int),
        0 <= k,
        k * num <= 2 * (COORD_LIMIT as int) * (den + 1),
        -(2 * (COORD_LIMIT as int) * (den + 1)) <= k * num,
    ensures
        -(5 * (COORD_LIMIT as int)) <= span_x(bx, num, den, k) <= 5 * (COORD_LIMIT as int),
{
    let cl = COORD_LIMIT as int;
    assert(-(5 * cl * den) <= bx * den + k * num <= 5 * cl * den) by (nonlinear_arith)
        requires
            -cl <= bx <= cl,
            1 <= den,
            -(2 * cl * (den + 1)) <= k * num <= 2 * cl * (den + 1),
            cl == 16777216,
    ;
    lemma_trunc_div_bound(bx * den + k * num, den, 5 * cl);
}

/// Bounds for one slope step: the products fit comfortably in `i64` and the
/// resulting span end stays within five coordinate limits.
pub proof fn lemma_span_step(bx: int, num: int, den: int, k: int)
    requires
        -(COORD_LIMIT as int) <= bx <= COORD_LIMIT as int,
        1 <= den <= 2 * (COORD_LIMIT as int),
        -(2 * (COORD_LIMIT as int)) <= num <= 2 * (COORD_LIMIT as int),
        0 <= k <= 2 * (COORD_LIMIT as int) + 2,
        k <= den + 1 || num == 0,
    ensures
        -(4 * (COORD_LIMIT as int) * (COORD_LIMIT as int)) <= bx * den <= 4 * (COORD_LIMIT
            as int) * (COORD_LIMIT as int),
        -(5 * (COORD_LIMIT as int) * (COORD_LIMIT as int)) <= k * num <= 5 * (COORD_LIMIT
            as int) * (COORD_LIMIT as int),
        -(5 * (COORD_LIMIT as int)) <= span_x(bx, num, den, k) <= 5 * (COORD_LIMIT as int),
{
    let cl = COORD_LIMIT as int;
    assert(-(5 * cl * cl) <= k * num <= 5 * cl * cl) by (nonlinear_arith)
        requires
            0 <= k <= 2 * cl + 2,
            -(2 * cl) <= num <= 2 * cl,
            cl == 16777216,
    ;
    assert(-(4 * cl * cl) <= bx * den <= 4 * cl * cl) by (nonlinear_arith)
        requires
            -cl <= bx <= cl,
            1 <= den <= 2 * cl,
            cl == 16777216,
    ;
    if num == 0 {
        assert(k * num == 0) by (nonlinear_arith)
            requires
                num == 0,
        ;
        assert(0 <= 2 * cl * (den + 1)) by (nonlinear_arith)
            requires
                1 <= den,
                cl == 16777216,
        ;
    } else {
        assert(-(2 * cl * (den + 1)) <= k * num <= 2 * cl * (den + 1)) by (nonlinear_arith)
            requires
                0 <= k <= den + 1,
                -(2 * cl) <= num <= 2 * cl,
                1 <= den,
                cl == 16777216,
        ;
    }
    lemma_span_x_bound(bx, num, den, k);
}

impl Framebuffer {
    /// Paints row `y` between columns `x_start` and `x_end` (either order)
    /// in `color`, clamping the span to the buffer and ignoring rows
    /// outside it, exactly as `scanline_paint` states.
    pub fn draw_scanline(&mut self, y: isize, x_start: isize, x_end: isize, color: u32)
        requires
            fb_wf(*old(self)),
            old(self).width as int <= COORD_LIMIT as int,
            old(self).height as int <= COORD_LIMIT as int,
        ensures
            fb_wf(*final(self)),
            final(self).width == old(self).width,
            final(self).height == old(self).height,
            final(self).buffer@ == scanline_paint(
                old(self).buffer@,
                old(self).width as int,
                old(self).height as int,
                y as int,
                x_start as int,
                x_end as int,
                color,
            ),
    {
        let ghost w = old(self).width as int;
        let ghost h = old(self).height as int;
        let ghost target = scanline_paint(
            old(self).buffer@,
            w,
            h,
            y as int,
            x_start as int,
            x_end as int,
            color,
        );
        if y >= 0 && y < self.height as isize {
            let lo0: isize = if x_start < x_end {
                x_start
            } else {
                x_end
            };
            let hi0: isize = if x_start < x_end {
                x_end
            } else {
                x_start
            };
            let lo: isize = if lo0 > 0 {
                lo0
            } else {
                0
            };
            let hi_lim: isize = (self.width as isize) - 1;
            let hi: isize = if hi0 < hi_lim {
                hi0
            } else {
                hi_lim
            };
            let mut x: isize = lo;
            loop
                invariant_except_break
                    row_paint(self.buffer@, w, h, y as int, x as int, hi as int, color)
                        == target,
                invariant
                    fb_wf(*self),
                    self.width == old(self).width,
                    self.height == old(self).height,
                    w == old(self).width as int,
                    h == old(self).height as int,
                    0 <= x as int,
                    hi as int <= w - 1,
                    w <= COORD_LIMIT as int,
                    x as int <= hi as int + 1 || x == lo,
                ensures
                    fb_wf(*self),
                    self.width == old(self).width,
                    self.height == old(self).height,
                    self.buffer@ == target,
                decreases hi as int + 1 - x as int,
            {
                if x > hi {
                    proof {
                        assert(row_paint(self.buffer@, w, h, y as int, x as int, hi as int, color)
                            == self.buffer@);
                    }
                    break;
                }
                self.set_pixel(x, y, color);
                x = x + 1;
            }
        }
    }

    /// Draws the wireframe outline of the triangle `v0 v1 v2`: the three
    /// stepped segments between the vertices in cyclic order.
    pub fn draw_triangle(
        &mut self,
        v0: (isize, isize),
        v1: (isize, isize),
        v2: (isize, isize),
        color: u32,
    )
        requires
            fb_wf(*old(self)),
            -(COORD_LIMIT as int) <= v0.0 as int <= COORD_LIMIT as int,
            -(COORD_LIMIT as int) <= v0.1 as int <= COORD_LIMIT as int,
            -(COORD_LIMIT as int) <= v1.0 as int <= COORD_LIMIT as int,
            -(COORD_LIMIT as int) <= v1.1 as int <= COORD_LIMIT as int,
            -(COORD_LIMIT as int) <= v2.0 as int <= COORD_LIMIT as int,
            -(COORD_LIMIT as int) <= v2.1 as int <= COORD_LIMIT as int,
        ensures
            fb_wf(*final(self)),
            final(self).width == old(self).width,
            final(self).height == old(self).height,
            final(self).buffer@ == ({
                let w = old(self).width as int;
                let h = old(self).height as int;
                let b1 = line_paint(
                    old(self).buffer@,
                    w,
                    h,
                    v0.0 as int,
                    v0.1 as int,
                    v1.0 as int,
                    v1.1 as int,
                    color,
                );
                let b2 = line_paint(b1, w, h, v1.0 as int, v1.1 as int, v2.0 as int, v2.1 as int, color);
                line_paint(b2, w, h, v2.0 as int, v2.1 as int, v0.0 as int, v0.1 as int, color)
            }),
    {
        self.draw_line(v0.0, v0.1, v1.0, v1.1, color);
        self.draw_line(v1.0, v1.1, v2.0, v2.1, color);
        self.draw_line(v2.0, v2.1, v0.0, v0.1, color);
    }

    /// Fills the triangle `v0 v1 v2` solid in `color`: one clamped
    /// horizontal span per row from the top vertex to the bottom vertex,
    /// with span ends advanced by the exact edge slopes, exactly as
    /// `fill_tri_paint` states.
    pub fn fill_triangle(
        &mut self,
        v0: (isize, isize),
        v1: (isize, isize),
        v2: (isize, isize),
        color: u32,
    )
        requires
            fb_wf(*old(self)),
            old(self).width as int <= COORD_LIMIT as int,
            old(self).height as int <= COORD_LIMIT as int,
            -(COORD_LIMIT as int) <= v0.0 as int <= COORD_LIMIT as int,
            -(COORD_LIMIT as int) <= v0.1 as int <= COORD_LIMIT as int,
            -(COORD_LIMIT as int) <= v1.0 as int <= COORD_LIMIT as int,
            -(COORD_LIMIT as int) <= v1.1 as int <= COORD_LIMIT as int,
            -(COORD_LIMIT as int) <= v2.0 as int <= COORD_LIMIT as int,
            -(COORD_LIMIT as int) <= v2.1 as int <= COORD_LIMIT as int,
        ensures
            fb_wf(*final(self)),
            final(self).width == old(self).width,
            final(self).height == old(self).height,
            final(self).buffer@ == fill_tri_paint(
                old(self).buffer@,
                old(self).width as int,
                old(self).height as int,
                (v0.0 as int, v0.1 as int),
                (v1.0 as int, v1.1 as int),
                (v2.0 as int, v2.1 as int),
                color,
            ),
    {
        let ghost w = old(self).width as int;
        let ghost h = old(self).height as int;
        let ghost gv0 = (v0.0 as int, v0.1 as int);
        let ghost gv1 = (v1.0 as int, v1.1 as int);
        let ghost gv2 = (v2.0 as int, v2.1 as int);
        // Stable sort of the three vertices by ascending row.
        let a0: (isize, isize) = if v1.1 < v0.1 {
            v1
        } else {
            v0
        };
        let a1: (isize, isize) = if v1.1 < v0.1 {
            v0
        } else {
            v1
        };
        let u0: (isize, isize) = if v2.1 < a0.1 {
            v2
        } else {
            a0
        };
        let u1: (isize, isize) = if v2.1 < a0.1 {
            a0
        } else if v2.1 < a1.1 {
            v2
        } else {
            a1
        };
        let u2: (isize, isize) = if v2.1 < a0.1 {
            a1
        } else if v2.1 < a1.1 {
            a1
        } else {
            v2
        };
        let ghost gu0 = (u0.0 as int, u0.1 as int);
        let ghost gu1 = (u1.0 as int, u1.1 as int);
        let ghost gu2 = (u2.0 as int, u2.1 as int);
        proof {
            assert(sort_tri_y(gv0, gv1, gv2) == (gu0, gu1, gu2));
        }
        // Exact rational slopes of the three edges.
        let (n01, d01): (i64, i64) = if u1.1 != u0.1 {
            (u1.0 as i64 - u0.0 as i64, u1.1 as i64 - u0.1 as i64)
        } else {
            (0, 1)
        };
        let (n02, d02): (i64, i64) = if u2.1 != u0.1 {
            (u2.0 as i64 - u0.0 as i64, u2.1 as i64 - u0.1 as i64)
        } else {
            (0, 1)
        };
        let (n12, d12): (i64, i64) = if u2.1 != u1.1 {
            (u2.0 as i64 - u1.0 as i64, u2.1 as i64 - u1.1 as i64)
        } else {
            (0, 1)
        };
        let n_up: i64 = (u1.1 as i64 - u0.1 as i64) + 1;
        let n_low: i64 = (u2.1 as i64 - u1.1 as i64) + 1;
        let ghost target_up = fill_rows(
            old(self).buffer@,
            w,
            h,
            color,
            gu0.1,
            n_up as int,
            0,
            gu0.0,
            n01 as int,
            d01 as int,
            0,
            gu0.0,
            n02 as int,
            d02 as int,
            0,
        );
        let ghost target_low = fill_rows(
            target_up,
            w,
            h,
            color,
            gu1.1,
            n_low as int,
            0,
            gu1.0,
            n12 as int,
            d12 as int,
            0,
            gu0.0,
            n02 as int,
            d02 as int,
            n_up as int,
        );
        proof {
            assert(target_low == fill_tri_paint(old(self).buffer@, w, h, gv0, gv1, gv2, color));
        }
        let mut k: i64 = 0;
        while k < n_up
            invariant
                fb_wf(*self),
                self.width == old(self).width,
                self.height == old(self).height,
                w == old(self).width as int,
                h == old(self).height as int,
                w <= COORD_LIMIT as int,
                h <= COORD_LIMIT as int,
                -(COORD_LIMIT as int) <= gu0.0 <= COORD_LIMIT as int,
                -(COORD_LIMIT as int) <= gu0.1 <= COORD_LIMIT as int,
                -(COORD_LIMIT as int) <= gu1.1 <= COORD_LIMIT as int,
                gu0.1 <= gu1.1,
                u0.0 as int == gu0.0,
                u0.1 as int == gu0.1,
                (n01 as int, d01 as int) == edge_slope(gu0, gu1),
                (n02 as int, d02 as int) == edge_slope(gu0, gu2),
                1 <= d01 as int <= 2 * (COORD_LIMIT as int),
                1 <= d02 as int <= 2 * (COORD_LIMIT as int),
                -(2 * (COORD_LIMIT as int)) <= n01 as int <= 2 * (COORD_LIMIT as int),
                -(2 * (COORD_LIMIT as int)) <= n02 as int <= 2 * (COORD_LIMIT as int),
                n_up as int == gu1.1 - gu0.1 + 1,
                n01 as int != 0 ==> d01 as int == gu1.1 - gu0.1,
                n02 as int != 0 ==> d02 as int == gu2.1 - gu0.1,
                gu1.1 <= gu2.1,
                0 <= k as int <= n_up as int,
                fill_rows(
                    self.buffer@,
                    w,
                    h,
                    color,
                    gu0.1,
                    n_up as int,
                    k as int,
                    gu0.0,
                    n01 as int,
                    d01 as int,
                    0,
                    gu0.0,
                    n02 as int,
                    d02 as int,
                    0,
                ) == target_up,
            decreases n_up as int - k as int,
        {
            proof {
                lemma_span_step(gu0.0, n01 as int, d01 as int, k as int);
                lemma_span_step(gu0.0, n02 as int, d02 as int, k as int);
            }
            let xs64: i64 = div_trunc_i64(u0.0 as i64 * d01 + k * n01, d01);
            let xe64: i64 = div_trunc_i64(u0.0 as i64 * d02 + k * n02, d02);
            self.draw_scanline(u0.1 + (k as isize), xs64 as isize, xe64 as isize, color);
            k = k + 1;
        }
        let mut j: i64 = 0;
        while j < n_low
            invariant
                fb_wf(*self),
                self.width == old(self).width,
                self.height == old(self).height,
                w == old(self).width as int,
                h == old(self).height as int,
                w <= COORD_LIMIT as int,
                h <= COORD_LIMIT as int,
                -(COORD_LIMIT as int) <= gu0.0 <= COORD_LIMIT as int,
                -(COORD_LIMIT as int) <= gu1.0 <= COORD_LIMIT as int,
                -(COORD_LIMIT as int) <= gu1.1 <= COORD_LIMIT as int,
                -(COORD_LIMIT as int) <= gu2.1 <= COORD_LIMIT as int,
                gu0.1 <= gu1.1 <= gu2.1,
                u0.0 as int == gu0.0,
                u1.0 as int == gu1.0,
                u1.1 as int == gu1.1,
                (n12 as int, d12 as int) == edge_slope(gu1, gu2),
                (n02 as int, d02 as int) == edge_slope(gu0, gu2),
                1 <= d12 as int <= 2 * (COORD_LIMIT as int),
                1 <= d02 as int <= 2 * (COORD_LIMIT as int),
                -(2 * (COORD_LIMIT as int)) <= n12 as int <= 2 * (COORD_LIMIT as int),
                -(2 * (COORD_LIMIT as int)) <= n02 as int <= 2 * (COORD_LIMIT as int),
                n_up as int == gu1.1 - gu0.1 + 1,
                n_low as int == gu2.1 - gu1.1 + 1,
                n12 as int != 0 ==> d12 as int == gu2.1 - gu1.1,
                n02 as int != 0 ==> d02 as int == gu2.1 - gu0.1,
                0 <= j as int <= n_low as int,
                fill_rows(
                    self.buffer@,
                    w,
                    h,
                    color,
                    gu1.1,
                    n_low as int,
                    j as int,
                    gu1.0,
                    n12 as int,
                    d12 as int,
                    0,
                    gu0.0,
                    n02 as int,
                    d02 as int,
                    n_up as int,
                ) == target_low,
            decreases n_low as int - j as int,
        {
            proof {
                lemma_span_step(gu1.0, n12 as int, d12 as int, j as int);
                lemma_span_step(gu0.0, n02 as int, d02 as int, n_up as int + j as int);
            }
            let xs64: i64 = div_trunc_i64(u1.0 as i64 * d12 + j * n12, d12);
            let xe64: i64 = div_trunc_i64(u0.0 as i64 * d02 + (n_up + j) * n02, d02);
            self.draw_scanline(u1.1 + (j as isize), xs64 as isize, xe64 as isize, color);
            j = j + 1;
        }
    }
}

} // verus!
