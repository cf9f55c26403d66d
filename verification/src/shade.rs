//! Flat shading: a face normal from a cross product, a brightness from a
//! dot product clamped at zero, and a per-channel brightness-scaled color.
//!
//! Vectors are fixed-point triples (`fixed::SCALE` sub-units per unit). The
//! normal is the cross product scaled to unit length with an exact integer
//! square root; the brightness is the dot product of two such vectors,
//! rescaled and clamped to be never negative; the color scaling multiplies
//! each 8-bit channel, truncates, and clamps it to `[0, 255]`.

use vstd::prelude::*;
use crate::fixed::{div_trunc_i128, div_trunc_i64, lemma_trunc_div_bound, lemma_trunc_div_le,
    trunc_div, SCALE};
use crate::framebuffer::Framebuffer;

verus! {

/// Largest vector component magnitude the shading functions accept.
pub const VEC_LIMIT: i64 = 536870912;

/// Largest brightness magnitude `apply_brightness_to_color` accepts.
pub const BRIGHT_LIMIT: i64 = 1099511627776;

/// The integer square root: the largest `r` with `r * r <= n` (zero for
/// nonpositive `n`).
pub open spec fn isqrt(n: int) -> int
    decreases n,
{
    if n <= 0 {
        0
    } else {
        let r = isqrt(n - 1);
        if (r + 1) * (r + 1) <= n {
            r + 1
        } else {
            r
        }
    }
}

/// `isqrt(n)` squares to at most `n`, and is the largest such value.
pub proof fn lemma_isqrt_bounds(n: int)
    requires
        n >= 0,
    ensures
        isqrt(n) >= 0,
        isqrt(n) * isqrt(n) <= n,
        n < (isqrt(n) + 1) * (isqrt(n) + 1),
    decreases n,
{
    if n == 0 {
    } else {
        lemma_isqrt_bounds(n - 1);
        let r = isqrt(n - 1);
        if (r + 1) * (r + 1) <= n {
            assert(n <= (r + 1) * (r + 1));
            assert((r + 1) * (r + 1) < (r + 2) * (r + 2)) by (nonlinear_arith)
                requires
                    r >= 0,
            ;
        }
    }
}

/// Any `r` whose square brackets `n` is the integer square root of `n`.
pub proof fn lemma_isqrt_unique(n: int, r: int)
    requires
        n >= 0,
        r >= 0,
        r * r <= n,
        n < (r + 1) * (r + 1),
    ensures
        isqrt(n) == r,
{
    lemma_isqrt_bounds(n);
    let s = isqrt(n);
    if s < r {
        assert((s + 1) * (s + 1) <= r * r) by (nonlinear_arith)
            requires
                s + 1 <= r,
                s >= 0,
        ;
        assert(false);
    } else if s > r {
        assert((r + 1) * (r + 1) <= s * s) by (nonlinear_arith)
            requires
                r + 1 <= s,
                r >= 0,
        ;
        assert(false);
    }
}

/// Binary-search integer square root on `u128`.
pub fn isqrt_u128(n: u128) -> (r: u128)
    requires
        (n as int) < 0x4000_0000_0000_0000_0000_0000_0000_0000,
    ensures
        r as int == isqrt(n as int),
        (r as int) * (r as int) <= n as int,
        (n as int) < (r as int + 1) * (r as int + 1),
        r < 0x8000_0000_0000_0000,
{
    let mut lo: u128 = 0;
    let mut hi: u128 = 0x8000_0000_0000_0000;
    while lo + 1 < hi
        invariant
            lo < hi <= 0x8000_0000_0000_0000,
            (lo as int) * (lo as int) <= n as int,
            (n as int) < (hi as int) * (hi as int),
            (n as int) < 0x4000_0000_0000_0000_0000_0000_0000_0000,
        decreases hi as int - lo as int,
    {
        let mid: u128 = lo + (hi - lo) / 2;
        proof {
            assert((mid as int) * (mid as int) < 0x8000_0000_0000_0000_0000_0000_0000_0000)
                by (nonlinear_arith)
                requires
                    0 <= mid as int <= 0x8000_0000_0000_0000,
            ;
        }
        if mid * mid <= n {
            lo = mid;
        } else {
            hi = mid;
        }
    }
    proof {
        lemma_isqrt_unique(n as int, lo as int);
    }
    lo
}

/// The cross product of the edges `v1 - v0` and `v2 - v0`.
pub open spec fn cross_vec(v0: (int, int, int), v1: (int, int, int), v2: (int, int, int)) -> (
    int,
    int,
    int,
) {
    let x1 = v1.0 - v0.0;
    let y1 = v1.1 - v0.1;
    let z1 = v1.2 - v0.2;
    let x2 = v2.0 - v0.0;
    let y2 = v2.1 - v0.1;
    let z2 = v2.2 - v0.2;
    (y1 * z2 - z1 * y2, z1 * x2 - x1 * z2, x1 * y2 - y1 * x2)
}

/// The squared Euclidean length of a vector.
pub open spec fn norm_sq(v: (int, int, int)) -> int {
    v.0 * v.0 + v.1 * v.1 + v.2 * v.2
}

/// The dot product of two vectors.
pub open spec fn dot3(a: (int, int, int), b: (int, int, int)) -> int {
    a.0 * b.0 + a.1 * b.1 + a.2 * b.2
}

/// The unit-length face normal in fixed point: the cross product of the two
/// edges, each component scaled by `SCALE` and divided by the cross
/// product's length.
pub open spec fn normal_vec(v0: (int, int, int), v1: (int, int, int), v2: (int, int, int)) -> (
    int,
    int,
    int,
) {
    let c = cross_vec(v0, v1, v2);
    let len = isqrt(norm_sq(c));
    (
        trunc_div(c.0 * (SCALE as int), len),
        trunc_div(c.1 * (SCALE as int), len),
        trunc_div(c.2 * (SCALE as int), len),
    )
}

/// The flat-shading brightness: the dot product of the fixed-point normal
/// and light direction, rescaled to fixed point and clamped at zero.
pub open spec fn brightness_of(normal: (int, int, int), light: (int, int, int)) -> int {
    let d = trunc_div(dot3(normal, light), SCALE as int);
    if d >= 0 {
        d
    } else {
        0
    }
}

/// One color channel scaled by a fixed-point brightness: multiplied,
/// truncated, then clamped to `[0, 255]`.
pub open spec fn channel_scaled(c: int, b: int) -> int {
    let v = trunc_div(c * b, SCALE as int);
    if v > 255 {
        255
    } else if v < 0 {
        0
    } else {
        v
    }
}

/// The packed color after scaling each 8-bit channel by the brightness.
pub open spec fn apply_brightness(color: u32, b: int) -> int {
    let r = channel_scaled((color as int / 65536) % 256, b);
    let g = channel_scaled((color as int / 256) % 256, b);
    let bl = channel_scaled(color as int % 256, b);
    r * 65536 + g * 256 + bl
}

/// The brightness is never negative, and a normal facing away from the
/// light (nonpositive dot product) is exactly dark.
pub proof fn lemma_brightness_never_negative(normal: (int, int, int), light: (int, int, int))
    ensures
        brightness_of(normal, light) >= 0,
        dot3(normal, light) <= 0 ==> brightness_of(normal, light) == 0,
{
    lemma_trunc_div_le(dot3(normal, light), SCALE as int);
}

impl Framebuffer {
    /// The cross product of the edges `v1 - v0` and `v2 - v0`, exactly as
    /// `cross_vec` states. A zero result means the face is degenerate and
    /// has no normal.
    pub fn cross_product(v0: (i64, i64, i64), v1: (i64, i64, i64), v2: (i64, i64, i64)) -> (c: (
        i64,
        i64,
        i64,
    ))
        requires
            -(VEC_LIMIT as int) <= v0.0 as int <= VEC_LIMIT as int,
            -(VEC_LIMIT as int) <= v0.1 as int <= VEC_LIMIT as int,
            -(VEC_LIMIT as int) <= v0.2 as int <= VEC_LIMIT as int,
            -(VEC_LIMIT as int) <= v1.0 as int <= VEC_LIMIT as int,
            -(VEC_LIMIT as int) <= v1.1 as int <= VEC_LIMIT as int,
            -(VEC_LIMIT as int) <= v1.2 as int <= VEC_LIMIT as int,
            -(VEC_LIMIT as int) <= v2.0 as int <= VEC_LIMIT as int,
            -(VEC_LIMIT as int) <= v2.1 as int <= VEC_LIMIT as int,
            -(VEC_LIMIT as int) <= v2.2 as int <= VEC_LIMIT as int,
        ensures
            (c.0 as int, c.1 as int, c.2 as int) == cross_vec(
                (v0.0 as int, v0.1 as int, v0.2 as int),
                (v1.0 as int, v1.1 as int, v1.2 as int),
                (v2.0 as int, v2.1 as int, v2.2 as int),
            ),
            -(0x2000_0000_0000_0000) <= c.0 as int <= 0x2000_0000_0000_0000,
            -(0x2000_0000_0000_0000) <= c.1 as int <= 0x2000_0000_0000_0000,
            -(0x2000_0000_0000_0000) <= c.2 as int <= 0x2000_0000_0000_0000,
    {
        let x1: i64 = v1.0 - v0.0;
        let y1: i64 = v1.1 - v0.1;
        let z1: i64 = v1.2 - v0.2;
        let x2: i64 = v2.0 - v0.0;
        let y2: i64 = v2.1 - v0.1;
        let z2: i64 = v2.2 - v0.2;
        proof {
            assert forall|p: int, q: int|
                -(2 * (VEC_LIMIT as int)) <= p <= 2 * (VEC_LIMIT as int) && -(2 * (VEC_LIMIT
                    as int)) <= q <= 2 * (VEC_LIMIT as int) implies -(0x1000_0000_0000_0000) <= #[trigger] (p * q)
                <= 0x1000_0000_0000_0000 by {
                assert(-(0x1000_0000_0000_0000) <= p * q <= 0x1000_0000_0000_0000)
                    by (nonlinear_arith)
                    requires
                        -(0x4000_0000) <= p <= 0x4000_0000,
                        -(0x4000_0000) <= q <= 0x4000_0000,
                ;
            }
        }
        (y1 * z2 - z1 * y2, z1 * x2 - x1 * z2, x1 * y2 - y1 * x2)
    }

    /// The unit face normal of the triangle `v0 v1 v2` in fixed point,
    /// exactly as `normal_vec` states. The face must not be degenerate:
    /// three collinear vertices have a zero cross product and no normal.
    pub fn calculate_normal(v0: (i64, i64, i64), v1: (i64, i64, i64), v2: (i64, i64, i64)) -> (n: (
        i64,
        i64,
        i64,
    ))
        requires
            -(VEC_LIMIT as int) <= v0.0 as int <= VEC_LIMIT as int,
            -(VEC_LIMIT as int) <= v0.1 as int <= VEC_LIMIT as int,
            -(VEC_LIMIT as int) <= v0.2 as int <= VEC_LIMIT as int,
            -(VEC_LIMIT as int) <= v1.0 as int <= VEC_LIMIT as int,
            -(VEC_LIMIT as int) <= v1.1 as int <= VEC_LIMIT as int,
            -(VEC_LIMIT as int) <= v1.2 as int <= VEC_LIMIT as int,
            -(VEC_LIMIT as int) <= v2.0 as int <= VEC_LIMIT as int,
            -(VEC_LIMIT as int) <= v2.1 as int <= VEC_LIMIT as int,
            -(VEC_LIMIT as int) <= v2.2 as int <= VEC_LIMIT as int,
            cross_vec(
                (v0.0 as int, v0.1 as int, v0.2 as int),
                (v1.0 as int, v1.1 as int, v1.2 as int),
                (v2.0 as int, v2.1 as int, v2.2 as int),
            ) != (0int, 0int, 0int),
        ensures
            (n.0 as int, n.1 as int, n.2 as int) == normal_vec(
                (v0.0 as int, v0.1 as int, v0.2 as int),
                (v1.0 as int, v1.1 as int, v1.2 as int),
                (v2.0 as int, v2.1 as int, v2.2 as int),
            ),
            -(SCALE as int) <= n.0 as int <= SCALE as int,
            -(SCALE as int) <= n.1 as int <= SCALE as int,
            -(SCALE as int) <= n.2 as int <= SCALE as int,
    {
        let c = Self::cross_product(v0, v1, v2);
        let cx: i128 = c.0 as i128;
        let cy: i128 = c.1 as i128;
        let cz: i128 = c.2 as i128;
        proof {
            assert(0 <= cx * cx <= 0x400_0000_0000_0000_0000_0000_0000_0000 && 0 <= cy * cy
                <= 0x400_0000_0000_0000_0000_0000_0000_0000 && 0 <= cz * cz
                <= 0x400_0000_0000_0000_0000_0000_0000_0000) by (nonlinear_arith)
                requires
                    -(0x2000_0000_0000_0000) <= cx <= 0x2000_0000_0000_0000,
                    -(0x2000_0000_0000_0000) <= cy <= 0x2000_0000_0000_0000,
                    -(0x2000_0000_0000_0000) <= cz <= 0x2000_0000_0000_0000,
            ;
        }
        let nsum: i128 = cx * cx + cy * cy + cz * cz;
        proof {
            assert(nsum > 0) by (nonlinear_arith)
                requires
                    nsum == cx * cx + cy * cy + cz * cz,
                    !(cx == 0 && cy == 0 && cz == 0),
            ;
        }
        proof {
            assert((nsum as u128) as int == nsum as int);
        }
        let len_u: u128 = isqrt_u128(nsum as u128);
        proof {
            if len_u == 0 {
                assert((len_u as int + 1) * (len_u as int + 1) == 1) by (nonlinear_arith)
                    requires
                        len_u as int == 0,
                ;
                assert((nsum as int) < 1);
                assert(false);
            }
        }
        let len: i128 = len_u as i128;
        proof {
            assert(len as int == isqrt(nsum as int));
        }
        proof {
            assert(cx * cx <= nsum && cy * cy <= nsum && cz * cz <= nsum) by (nonlinear_arith)
                requires
                    nsum == cx * cx + cy * cy + cz * cz,
                    cx * cx >= 0,
                    cy * cy >= 0,
                    cz * cz >= 0,
            ;
            lemma_component_le_isqrt(cx as int, nsum as int, len as int);
            lemma_component_le_isqrt(cy as int, nsum as int, len as int);
            lemma_component_le_isqrt(cz as int, nsum as int, len as int);
            assert(-(len * (SCALE as i128)) <= cx * (SCALE as i128) <= len * (SCALE as i128)
                && -(len * (SCALE as i128)) <= cy * (SCALE as i128) <= len * (SCALE as i128)
                && -(len * (SCALE as i128)) <= cz * (SCALE as i128) <= len * (SCALE as i128))
                by (nonlinear_arith)
                requires
                    -len <= cx <= len,
                    -len <= cy <= len,
                    -len <= cz <= len,
                    len >= 1,
            ;
            lemma_trunc_div_bound(cx as int * (SCALE as int), len as int, SCALE as int);
            lemma_trunc_div_bound(cy as int * (SCALE as int), len as int, SCALE as int);
            lemma_trunc_div_bound(cz as int * (SCALE as int), len as int, SCALE as int);
        }
        let rx: i128 = div_trunc_i128(cx * (SCALE as i128), len);
        let ry: i128 = div_trunc_i128(cy * (SCALE as i128), len);
        let rz: i128 = div_trunc_i128(cz * (SCALE as i128), len);
        (rx as i64, ry as i64, rz as i64)
    }

    /// The flat-shading brightness of a face normal under a light
    /// direction, exactly as `brightness_of` states: never negative, and
    /// zero whenever the dot product is nonpositive.
    pub fn calculate_brightness(normal: (i64, i64, i64), light_direction: (i64, i64, i64)) -> (b:
        i64)
        requires
            -(VEC_LIMIT as int) <= normal.0 as int <= VEC_LIMIT as int,
            -(VEC_LIMIT as int) <= normal.1 as int <= VEC_LIMIT as int,
            -(VEC_LIMIT as int) <= normal.2 as int <= VEC_LIMIT as int,
            -(VEC_LIMIT as int) <= light_direction.0 as int <= VEC_LIMIT as int,
            -(VEC_LIMIT as int) <= light_direction.1 as int <= VEC_LIMIT as int,
            -(VEC_LIMIT as int) <= light_direction.2 as int <= VEC_LIMIT as int,
        ensures
            b as int == brightness_of(
                (normal.0 as int, normal.1 as int, normal.2 as int),
                (light_direction.0 as int, light_direction.1 as int, light_direction.2 as int),
            ),
            b >= 0,
    {
        proof {
            assert forall|p: int, q: int|
                -(VEC_LIMIT as int) <= p <= VEC_LIMIT as int && -(VEC_LIMIT as int) <= q
                    <= VEC_LIMIT as int implies -(0x400_0000_0000_0000) <= #[trigger] (p * q)
                <= 0x400_0000_0000_0000 by {
                assert(-(0x400_0000_0000_0000) <= p * q <= 0x400_0000_0000_0000)
                    by (nonlinear_arith)
                    requires
                        -(0x2000_0000) <= p <= 0x2000_0000,
                        -(0x2000_0000) <= q <= 0x2000_0000,
                ;
            }
        }
        let dot: i64 = normal.0 * light_direction.0 + normal.1 * light_direction.1 + normal.2
            * light_direction.2;
        let d: i64 = div_trunc_i64(dot, SCALE);
        proof {
            lemma_trunc_div_le(dot as int, SCALE as int);
        }
        if d >= 0 {
            d
        } else {
            0
        }
    }

    /// Scales each 8-bit channel of the packed color by the fixed-point
    /// brightness, truncating and clamping each result to `[0, 255]`,
    /// exactly as `apply_brightness` states. The brightness itself is not
    /// clamped: values above one saturate channels per channel.
    pub fn apply_brightness_to_color(color: u32, brightness: i64) -> (shaded: u32)
        requires
            -(BRIGHT_LIMIT as int) <= brightness as int <= BRIGHT_LIMIT as int,
        ensures
            shaded as int == apply_brightness(color, brightness as int),
    {
        let r: u32 = (color >> 16) & 0xFF;
        let g: u32 = (color >> 8) & 0xFF;
        let b: u32 = color & 0xFF;
        proof {
            assert(((color >> 16) & 0xFF) as int == (color as int / 65536) % 256 && ((color
                >> 8) & 0xFF) as int == (color as int / 256) % 256 && (color & 0xFF) as int
                == color as int % 256 && ((color >> 16) & 0xFF) < 256 && ((color >> 8) & 0xFF)
                < 256 && (color & 0xFF) < 256) by (bit_vector);
        }
        let rc: u32 = Self::scale_channel(r, brightness);
        let gc: u32 = Self::scale_channel(g, brightness);
        let bc: u32 = Self::scale_channel(b, brightness);
        proof {
            assert((rc << 16) | (gc << 8) | bc == rc * 65536 + gc * 256 + bc) by (bit_vector)
                requires
                    rc < 256,
                    gc < 256,
                    bc < 256,
            ;
        }
        (rc << 16) | (gc << 8) | bc
    }

    /// One channel of the brightness scaling: multiply, truncate, clamp.
    fn scale_channel(c: u32, brightness: i64) -> (v: u32)
        requires
            c < 256,
            -(BRIGHT_LIMIT as int) <= brightness as int <= BRIGHT_LIMIT as int,
        ensures
            v as int == channel_scaled(c as int, brightness as int),
            v < 256,
    {
        proof {
            assert(-(256 * (BRIGHT_LIMIT as int)) <= (c as int) * (brightness as int) <= 256
                * (BRIGHT_LIMIT as int)) by (nonlinear_arith)
                requires
                    0 <= c as int, (c as int) < 256,
                    -(BRIGHT_LIMIT as int) <= brightness as int <= BRIGHT_LIMIT as int,
            ;
        }
        let prod: i64 = (c as i64) * brightness;
        let v: i64 = div_trunc_i64(prod, SCALE);
        if v > 255 {
            255
        } else if v < 0 {
            0
        } else {
            v as u32
        }
    }
}

/// A component of a vector is no longer than the vector: its square is at
/// most the squared length, so its magnitude is at most the rounded length.
proof fn lemma_component_le_isqrt(c: int, n: int, len: int)
    requires
        n >= 0,
        c * c <= n,
        len == isqrt(n),
    ensures
        -len <= c <= len,
{
    lemma_isqrt_bounds(n);
    let m = if c >= 0 {
        c
    } else {
        -c
    };
    if m > len {
        assert((len + 1) * (len + 1) <= m * m && m * m == c * c) by (nonlinear_arith)
            requires
                len + 1 <= m,
                len >= 0,
                m == if c >= 0 { c } else { -c },
        ;
        assert(false);
    }
}

} // verus!
