//! Integer-error line rasterization.
//!
//! `draw_line` steps from one endpoint to the other, plotting one pixel per
//! step and advancing along either or both axes by comparing twice the
//! accumulated error term against the two deltas. The spec function
//! `line_paint` defines the exact sequence of writes, and the contract of
//! `draw_line` says the buffer is transformed by precisely those writes.

use vstd::prelude::*;
use crate::framebuffer::{fb_wf, in_bounds, lemma_pix_idx_in_range, pix_idx, put_pixel, Framebuffer};

verus! {

/// Largest endpoint coordinate magnitude accepted by the drawing routines,
/// so that the error accumulator arithmetic stays well inside `i64`.
pub const COORD_LIMIT: i64 = 16777216;

/// Absolute horizontal distance between the endpoints.
pub open spec fn line_dx(x0: int, x1: int) -> int {
    if x1 >= x0 {
        x1 - x0
    } else {
        x0 - x1
    }
}

/// Absolute vertical distance between the endpoints.
pub open spec fn line_dy(y0: int, y1: int) -> int {
    if y1 >= y0 {
        y1 - y0
    } else {
        y0 - y1
    }
}

/// Horizontal step direction.
pub open spec fn line_sx(x0: int, x1: int) -> int {
    if x0 < x1 {
        1
    } else {
        -1
    }
}

/// Vertical step direction.
pub open spec fn line_sy(y0: int, y1: int) -> int {
    if y0 < y1 {
        1
    } else {
        -1
    }
}

/// The error accumulator after `a` horizontal and `b` vertical steps: it
/// starts at `dx - dy` and every horizontal step subtracts `dy`, every
/// vertical step adds `dx` (`dx`, `dy` here are the absolute distances).
pub open spec fn line_err(dx: int, dy: int, a: int, b: int) -> int {
    dx * (1 + b) - dy * (1 + a)
}

/// The buffer after running the stepping loop to completion, starting `a`
/// horizontal and `b` vertical steps along the way: plot the current pixel;
/// stop if the target is reached; otherwise compare twice the error term
/// against the deltas to advance either or both axes, and continue.
pub open spec fn line_paint_from(
    buf: Seq<u32>,
    w: int,
    h: int,
    x0: int,
    y0: int,
    x1: int,
    y1: int,
    c: u32,
    a: int,
    b: int,
) -> Seq<u32>
    decreases line_dx(x0, x1) - a + line_dy(y0, y1) - b,
    when 0 <= a <= line_dx(x0, x1) && 0 <= b <= line_dy(y0, y1)
    via line_paint_from_dec
{
    let dx = line_dx(x0, x1);
    let dy = line_dy(y0, y1);
    let x = x0 + a * line_sx(x0, x1);
    let y = y0 + b * line_sy(y0, y1);
    let buf1 = put_pixel(buf, w, h, x, y, c);
    if a == dx && b == dy {
        buf1
    } else {
        let e2 = 2 * line_err(dx, dy, a, b);
        let a2 = if e2 >= -dy {
            a + 1
        } else {
            a
        };
        let b2 = if e2 <= dx {
            b + 1
        } else {
            b
        };
        line_paint_from(buf1, w, h, x0, y0, x1, y1, c, a2, b2)
    }
}

/// The loop never leaves the bounding box of the endpoints: when one axis
/// has reached its target the error term keeps that axis still, so each
/// step moves at least one axis toward the target.
pub proof fn lemma_line_step(x0: int, y0: int, x1: int, y1: int, a: int, b: int)
    requires
        0 <= a <= line_dx(x0, x1),
        0 <= b <= line_dy(y0, y1),
        !(a == line_dx(x0, x1) && b == line_dy(y0, y1)),
    ensures
        ({
            let dx = line_dx(x0, x1);
            let dy = line_dy(y0, y1);
            let e2 = 2 * line_err(dx, dy, a, b);
            &&& (a == dx ==> e2 < -dy)
            &&& (b == dy ==> e2 > dx)
            &&& (e2 >= -dy || e2 <= dx)
        }),
{
    let dx = line_dx(x0, x1);
    let dy = line_dy(y0, y1);
    let e2 = 2 * line_err(dx, dy, a, b);
    if a == dx {
        assert(e2 < -dy) by (nonlinear_arith)
            requires
                e2 == 2 * (dx * (1 + b) - dy * (1 + a)),
                a == dx,
                0 <= a,
                0 <= b,
                b < dy,
        ;
    } else if b == dy {
        assert(e2 > dx) by (nonlinear_arith)
            requires
                e2 == 2 * (dx * (1 + b) - dy * (1 + a)),
                b == dy,
                0 <= b,
                0 <= a,
                a < dx,
        ;
    } else {
        assert(!(e2 < -dy && e2 > dx));
    }
}

#[via_fn]
proof fn line_paint_from_dec(
    buf: Seq<u32>,
    w: int,
    h: int,
    x0: int,
    y0: int,
    x1: int,
    y1: int,
    c: u32,
    a: int,
    b: int,
) {
    if !(a == line_dx(x0, x1) && b == line_dy(y0, y1)) {
        lemma_line_step(x0, y0, x1, y1, a, b);
    }
}

/// The buffer after drawing the whole stepped line from `(x0, y0)` to
/// `(x1, y1)` in color `c`.
pub open spec fn line_paint(
    buf: Seq<u32>,
    w: int,
    h: int,
    x0: int,
    y0: int,
    x1: int,
    y1: int,
    c: u32,
) -> Seq<u32> {
    line_paint_from(buf, w, h, x0, y0, x1, y1, c, 0, 0)
}

/// Drawing a line only writes the line's color: it keeps the buffer's
/// length, every pixel either keeps its old value or becomes `c`, and both
/// endpoints (when inside the buffer) end up holding `c`.
pub proof fn lemma_line_paint_pixels(
    buf: Seq<u32>,
    w: int,
    h: int,
    x0: int,
    y0: int,
    x1: int,
    y1: int,
    c: u32,
    a: int,
    b: int,
)
    requires
        0 <= a <= line_dx(x0, x1),
        0 <= b <= line_dy(y0, y1),
        buf.len() == w * h,
    ensures
        ({
            let r = line_paint_from(buf, w, h, x0, y0, x1, y1, c, a, b);
            let x = x0 + a * line_sx(x0, x1);
            let y = y0 + b * line_sy(y0, y1);
            &&& r.len() == buf.len()
            &&& forall|i: int| 0 <= i < buf.len() ==> r[i] == buf[i] || r[i] == c
            &&& (in_bounds(w, h, x, y) ==> r[pix_idx(w, x, y)] == c)
            &&& (in_bounds(w, h, x1, y1) ==> r[pix_idx(w, x1, y1)] == c)
        }),
    decreases line_dx(x0, x1) - a + line_dy(y0, y1) - b,
{
    let dx = line_dx(x0, x1);
    let dy = line_dy(y0, y1);
    let x = x0 + a * line_sx(x0, x1);
    let y = y0 + b * line_sy(y0, y1);
    let buf1 = put_pixel(buf, w, h, x, y, c);
    if in_bounds(w, h, x, y) {
        lemma_pix_idx_in_range(w, h, x, y);
    }
    if a == dx && b == dy {
        assert(x == x1 && y == y1) by (nonlinear_arith)
            requires
                x == x0 + a * line_sx(x0, x1),
                y == y0 + b * line_sy(y0, y1),
                a == dx,
                b == dy,
                dx == line_dx(x0, x1),
                dy == line_dy(y0, y1),
                line_sx(x0, x1) == if x0 < x1 { 1int } else { -1int },
                line_sy(y0, y1) == if y0 < y1 { 1int } else { -1int },
                dx == if x1 >= x0 { x1 - x0 } else { x0 - x1 },
                dy == if y1 >= y0 { y1 - y0 } else { y0 - y1 },
        ;
    } else {
        let e2 = 2 * line_err(dx, dy, a, b);
        let a2 = if e2 >= -dy {
            a + 1
        } else {
            a
        };
        let b2 = if e2 <= dx {
            b + 1
        } else {
            b
        };
        lemma_line_step(x0, y0, x1, y1, a, b);
        lemma_line_paint_pixels(buf1, w, h, x0, y0, x1, y1, c, a2, b2);
        if in_bounds(w, h, x, y) {
            let r = line_paint_from(buf, w, h, x0, y0, x1, y1, c, a, b);
            let x2 = x0 + a2 * line_sx(x0, x1);
            let y2 = y0 + b2 * line_sy(y0, y1);
            if r[pix_idx(w, x, y)] != c {
                assert(r[pix_idx(w, x, y)] == buf1[pix_idx(w, x, y)]);
                assert(false);
            }
        }
    }
}

/// Distinct coordinates of the rectangle have distinct row-major indices.
pub proof fn lemma_pix_idx_injective(w: int, h: int, x: int, y: int, px: int, py: int)
    requires
        in_bounds(w, h, x, y),
        in_bounds(w, h, px, py),
        pix_idx(w, x, y) == pix_idx(w, px, py),
    ensures
        x == px && y == py,
{
    assert(x == px && y == py) by (nonlinear_arith)
        requires
            0 <= x < w,
            0 <= px < w,
            0 <= y < h,
            0 <= py < h,
            y * w + x == py * w + px,
    ;
}

proof fn lemma_line_paint_horizontal_from(
    buf: Seq<u32>,
    w: int,
    h: int,
    x0: int,
    y0: int,
    x1: int,
    c: u32,
    a: int,
)
    requires
        0 <= a <= line_dx(x0, x1),
        buf.len() == w * h,
    ensures
        ({
            let r = line_paint_from(buf, w, h, x0, y0, x1, y0, c, a, 0);
            let x = x0 + a * line_sx(x0, x1);
            let lo = if x <= x1 { x } else { x1 };
            let hi = if x <= x1 { x1 } else { x };
            &&& r.len() == buf.len()
            &&& forall|px: int, py: int|
                in_bounds(w, h, px, py) ==> r[pix_idx(w, px, py)] == (if py == y0 && lo <= px
                    <= hi {
                    c
                } else {
                    buf[pix_idx(w, px, py)]
                })
        }),
    decreases line_dx(x0, x1) - a,
{
    let dx = line_dx(x0, x1);
    let sx = line_sx(x0, x1);
    let x = x0 + a * sx;
    let r = line_paint_from(buf, w, h, x0, y0, x1, y0, c, a, 0);
    let buf1 = put_pixel(buf, w, h, x, y0, c);
    assert(line_dy(y0, y0) == 0);
    assert(forall|px: int, py: int|
        in_bounds(w, h, px, py) ==> #[trigger] pix_idx(w, px, py) == py * w + px);
    assert(forall|px: int, py: int|
        in_bounds(w, h, px, py) && in_bounds(w, h, x, y0) && (px != x || py != y0)
            ==> buf1[#[trigger] pix_idx(w, px, py)] == buf[pix_idx(w, px, py)]) by {
        assert forall|px: int, py: int|
            in_bounds(w, h, px, py) && in_bounds(w, h, x, y0) && (px != x || py != y0)
            implies buf1[#[trigger] pix_idx(w, px, py)] == buf[pix_idx(w, px, py)] by {
            lemma_pix_idx_in_range(w, h, px, py);
            lemma_pix_idx_in_range(w, h, x, y0);
            if pix_idx(w, px, py) == pix_idx(w, x, y0) {
                lemma_pix_idx_injective(w, h, x, y0, px, py);
            }
        }
    }
    if in_bounds(w, h, x, y0) {
        lemma_pix_idx_in_range(w, h, x, y0);
    }
    if a == dx {
        assert(x == x1) by (nonlinear_arith)
            requires
                x == x0 + a * sx,
                a == dx,
                sx == if x0 < x1 { 1int } else { -1int },
                dx == if x1 >= x0 { x1 - x0 } else { x0 - x1 },
        ;
    } else {
        lemma_line_step(x0, y0, x1, y0, a, 0);
        assert(2 * line_err(dx, 0, a, 0) == 2 * dx) by (nonlinear_arith)
            requires
                line_err(dx, 0, a, 0) == dx * 1 - 0 * (1 + a),
        ;
        assert(x0 + (a + 1) * sx == x + sx) by (nonlinear_arith)
            requires
                x == x0 + a * sx,
        ;
        lemma_line_paint_horizontal_from(buf1, w, h, x0, y0, x1, c, a + 1);
        assert(x1 == x0 + dx * sx) by (nonlinear_arith)
            requires
                sx == if x0 < x1 { 1int } else { -1int },
                dx == if x1 >= x0 { x1 - x0 } else { x0 - x1 },
        ;
        assert((x <= x1 ==> x + sx <= x1 && sx == 1) && (x > x1 ==> x + sx >= x1 && sx == -1))
            by (nonlinear_arith)
            requires
                x == x0 + a * sx,
                x1 == x0 + dx * sx,
                0 <= a < dx,
                sx == 1 || sx == -1,
        ;
    }
}

/// A horizontal line paints exactly the pixels of its own row whose columns
/// lie between the two endpoints' columns (inclusive), and no other pixel.
pub proof fn lemma_line_paint_horizontal(
    buf: Seq<u32>,
    w: int,
    h: int,
    x0: int,
    y0: int,
    x1: int,
    c: u32,
)
    requires
        buf.len() == w * h,
    ensures
        ({
            let r = line_paint(buf, w, h, x0, y0, x1, y0, c);
            let lo = if x0 <= x1 { x0 } else { x1 };
            let hi = if x0 <= x1 { x1 } else { x0 };
            &&& r.len() == buf.len()
            &&& forall|px: int, py: int|
                in_bounds(w, h, px, py) ==> r[pix_idx(w, px, py)] == (if py == y0 && lo <= px
                    <= hi {
                    c
                } else {
                    buf[pix_idx(w, px, py)]
                })
        }),
{
    lemma_line_paint_horizontal_from(buf, w, h, x0, y0, x1, c, 0);
}

impl Framebuffer {
    /// Draws the stepped segment from `(x0, y0)` to `(x1, y1)` in `color`.
    /// The buffer is transformed exactly as `line_paint` describes; in
    /// particular a zero-length line writes exactly its one pixel, both
    /// endpoints are written, and no pixel takes any color but `color`.
    pub fn draw_line(&mut self, x0: isize, y0: isize, x1: isize, y1: isize, color: u32)
        requires
            fb_wf(*old(self)),
            -(COORD_LIMIT as int) <= x0 as int <= COORD_LIMIT as int,
            -(COORD_LIMIT as int) <= y0 as int <= COORD_LIMIT as int,
            -(COORD_LIMIT as int) <= x1 as int <= COORD_LIMIT as int,
            -(COORD_LIMIT as int) <= y1 as int <= COORD_LIMIT as int,
        ensures
            fb_wf(*final(self)),
            final(self).width == old(self).width,
            final(self).height == old(self).height,
            final(self).buffer@ == line_paint(
                old(self).buffer@,
                old(self).width as int,
                old(self).height as int,
                x0 as int,
                y0 as int,
                x1 as int,
                y1 as int,
                color,
            ),
            x0 == x1 && y0 == y1 ==> final(self).buffer@ == put_pixel(
                old(self).buffer@,
                old(self).width as int,
                old(self).height as int,
                x0 as int,
                y0 as int,
                color,
            ),
            forall|i: int|
                0 <= i < old(self).buffer@.len() ==> final(self).buffer@[i] == old(
                    self,
                ).buffer@[i] || final(self).buffer@[i] == color,
            in_bounds(old(self).width as int, old(self).height as int, x0 as int, y0 as int)
                ==> final(self).buffer@[pix_idx(old(self).width as int, x0 as int, y0 as int)]
                == color,
            in_bounds(old(self).width as int, old(self).height as int, x1 as int, y1 as int)
                ==> final(self).buffer@[pix_idx(old(self).width as int, x1 as int, y1 as int)]
                == color,
    {
        let ghost w = old(self).width as int;
        let ghost h = old(self).height as int;
        let ghost target = line_paint(
            old(self).buffer@,
            w,
            h,
            x0 as int,
            y0 as int,
            x1 as int,
            y1 as int,
            color,
        );
        let x0v: i64 = x0 as i64;
        let y0v: i64 = y0 as i64;
        let x1v: i64 = x1 as i64;
        let y1v: i64 = y1 as i64;
        let mut x: i64 = x0v;
        let mut y: i64 = y0v;
        let dx: i64 = if x1v >= x0v {
            x1v - x0v
        } else {
            x0v - x1v
        };
        let dyp: i64 = if y1v >= y0v {
            y1v - y0v
        } else {
            y0v - y1v
        };
        let sx: i64 = if x0v < x1v {
            1
        } else {
            -1
        };
        let sy: i64 = if y0v < y1v {
            1
        } else {
            -1
        };
        let mut err: i64 = dx - dyp;
        let ghost mut a: int = 0;
        let ghost mut b: int = 0;
        loop
            invariant_except_break
                line_paint_from(self.buffer@, w, h, x0 as int, y0 as int, x1 as int, y1 as int, color, a, b)
                    == target,
            invariant
                fb_wf(*self),
                self.width == old(self).width,
                self.height == old(self).height,
                w == old(self).width as int,
                h == old(self).height as int,
                -(COORD_LIMIT as int) <= x0 as int <= COORD_LIMIT as int,
                -(COORD_LIMIT as int) <= y0 as int <= COORD_LIMIT as int,
                -(COORD_LIMIT as int) <= x1 as int <= COORD_LIMIT as int,
                -(COORD_LIMIT as int) <= y1 as int <= COORD_LIMIT as int,
                x0v as int == x0 as int,
                y0v as int == y0 as int,
                x1v as int == x1 as int,
                y1v as int == y1 as int,
                dx == line_dx(x0 as int, x1 as int),
                dyp == line_dy(y0 as int, y1 as int),
                sx as int == line_sx(x0 as int, x1 as int),
                sy as int == line_sy(y0 as int, y1 as int),
                0 <= dx <= 2 * (COORD_LIMIT as int),
                0 <= dyp <= 2 * (COORD_LIMIT as int),
                0 <= a <= dx as int,
                0 <= b <= dyp as int,
                x as int == x0 as int + a * (sx as int),
                y as int == y0 as int + b * (sy as int),
                err as int == line_err(dx as int, dyp as int, a, b),
            ensures
                fb_wf(*self),
                self.width == old(self).width,
                self.height == old(self).height,
                self.buffer@ == target,
            decreases dx as int - a + dyp as int - b,
        {
            proof {
                assert((sx as int == 1 && x1 as int - x0 as int == dx as int) || (sx as int
                    == -1 && x0 as int - x1 as int == dx as int));
                assert((sy as int == 1 && y1 as int - y0 as int == dyp as int) || (sy as int
                    == -1 && y0 as int - y1 as int == dyp as int));
                assert(-(COORD_LIMIT as int) <= x as int <= COORD_LIMIT as int && -(
                COORD_LIMIT as int) <= y as int <= COORD_LIMIT as int) by (nonlinear_arith)
                    requires
                        x as int == x0 as int + a * (sx as int),
                        y as int == y0 as int + b * (sy as int),
                        0 <= a <= dx as int,
                        0 <= b <= dyp as int,
                        (sx as int == 1 && x1 as int - x0 as int == dx as int) || (sx as int
                            == -1 && x0 as int - x1 as int == dx as int),
                        (sy as int == 1 && y1 as int - y0 as int == dyp as int) || (sy as int
                            == -1 && y0 as int - y1 as int == dyp as int),
                        -(COORD_LIMIT as int) <= x0 as int <= COORD_LIMIT as int,
                        -(COORD_LIMIT as int) <= y0 as int <= COORD_LIMIT as int,
                        -(COORD_LIMIT as int) <= x1 as int <= COORD_LIMIT as int,
                        -(COORD_LIMIT as int) <= y1 as int <= COORD_LIMIT as int,
                ;
            }
            let ghost buf_head = self.buffer@;
            self.set_pixel(x as isize, y as isize, color);
            if x == x1v && y == y1v {
                proof {
                    assert(a == dx as int && b == dyp as int) by (nonlinear_arith)
                        requires
                            x as int == x0 as int + a * (sx as int),
                            y as int == y0 as int + b * (sy as int),
                            x as int == x1 as int,
                            y as int == y1 as int,
                            sx as int == line_sx(x0 as int, x1 as int),
                            sy as int == line_sy(y0 as int, y1 as int),
                            dx as int == line_dx(x0 as int, x1 as int),
                            dyp as int == line_dy(y0 as int, y1 as int),
                            0 <= a <= dx as int,
                            0 <= b <= dyp as int,
                    ;
                    assert(self.buffer@ == target);
                }
                break;
            }
            proof {
                assert(-(8 * (COORD_LIMIT as int) * (COORD_LIMIT as int) + 4 * (COORD_LIMIT
                    as int)) <= err as int <= 8 * (COORD_LIMIT as int) * (COORD_LIMIT as int)
                    + 4 * (COORD_LIMIT as int)) by (nonlinear_arith)
                    requires
                        err as int == (dx as int) * (1 + b) - (dyp as int) * (1 + a),
                        0 <= a <= dx as int,
                        0 <= b <= dyp as int,
                        0 <= dx as int <= 2 * (COORD_LIMIT as int),
                        0 <= dyp as int <= 2 * (COORD_LIMIT as int),
                ;
            }
            let e2: i64 = 2 * err;
            let ghost a_old = a;
            let ghost b_old = b;
            if e2 >= -dyp {
                proof {
                    if a == dx as int {
                        assert((e2 as int) < -(dyp as int)) by (nonlinear_arith)
                            requires
                                e2 as int == 2 * ((dx as int) * (1 + b) - (dyp as int) * (1
                                    + a)),
                                a == dx as int,
                                0 <= a,
                                0 <= b,
                                b < dyp as int,
                        ;
                    }
                }
                err = err - dyp;
                x = x + sx;
                proof {
                    a = a + 1;
                }
            }
            if e2 <= dx {
                proof {
                    if b == dyp as int {
                        assert(e2 as int > dx as int) by (nonlinear_arith)
                            requires
                                e2 as int == 2 * ((dx as int) * (1 + b_old) - (dyp as int)
                                    * (1 + a_old)),
                                b_old == dyp as int,
                                b == b_old,
                                0 <= b_old,
                                0 <= a_old,
                                a_old < dx as int,
                        ;
                    }
                }
                err = err + dx;
                y = y + sy;
                proof {
                    b = b + 1;
                }
            }
            proof {
                assert(a > a_old || b > b_old);
                assert(err as int == line_err(dx as int, dyp as int, a, b)) by (nonlinear_arith)
                    requires
                        err as int == (dx as int) * (1 + b_old) - (dyp as int) * (1 + a_old)
                            - (if a > a_old { dyp as int } else { 0 }) + (if b > b_old { dx as int } else { 0 }),
                        a == a_old + (if a > a_old { 1int } else { 0int }),
                        b == b_old + (if b > b_old { 1int } else { 0int }),
                ;
                assert(line_paint_from(
                    self.buffer@,
                    w,
                    h,
                    x0 as int,
                    y0 as int,
                    x1 as int,
                    y1 as int,
                    color,
                    a,
                    b,
                ) == line_paint_from(
                    buf_head,
                    w,
                    h,
                    x0 as int,
                    y0 as int,
                    x1 as int,
                    y1 as int,
                    color,
                    a_old,
                    b_old,
                ));
            }
        }
        proof {
            lemma_line_paint_pixels(
                old(self).buffer@,
                w,
                h,
                x0 as int,
                y0 as int,
                x1 as int,
                y1 as int,
                color,
                0,
                0,
            );
        }
    }
}

} // verus!
