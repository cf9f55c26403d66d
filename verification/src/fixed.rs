//! Fixed-point arithmetic for the rasterizer.
//!
//! World-space quantities (rotation inputs, shading vectors, ray-casting
//! points) are carried as signed integers holding `SCALE` sub-units per
//! unit. All operations are exact integer arithmetic; where the mathematics
//! divides, the quotient is truncated toward zero, and `trunc_div` is the
//! specification of that rounding. `round_div` is rounding to the nearest
//! integer with ties away from zero, used by the perspective projector.

use vstd::prelude::*;
use vstd::arithmetic::div_mod::{
    lemma_div_by_multiple, lemma_div_is_ordered, lemma_div_pos_is_pos,
};

verus! {

/// Sub-units per world unit of the fixed-point representation.
pub const SCALE: i64 = 65536;

/// Quotient of `a / b` truncated toward zero, exactly as Rust's `/` operator
/// computes it on machine integers (`b != 0`).
pub open spec fn trunc_div(a: int, b: int) -> int {
    if a >= 0 {
        if b >= 0 {
            a / b
        } else {
            -(a / (-b))
        }
    } else {
        if b >= 0 {
            -((-a) / b)
        } else {
            (-a) / (-b)
        }
    }
}

/// `a / b` rounded to the nearest integer, ties away from zero (`b != 0`).
/// This is the integer analogue of dividing exactly and applying `round`.
pub open spec fn round_div(a: int, b: int) -> int {
    if b < 0 {
        round_div_pos(-a, -b)
    } else {
        round_div_pos(a, b)
    }
}

/// `round_div` for a positive divisor.
pub open spec fn round_div_pos(a: int, b: int) -> int {
    if a >= 0 {
        (2 * a + b) / (2 * b)
    } else {
        -((2 * (-a) + b) / (2 * b))
    }
}

/// Dividing an exact multiple truncates to the exact quotient.
pub proof fn lemma_trunc_div_exact(a: int, b: int)
    requires
        b >= 1,
    ensures
        trunc_div(a * b, b) == a,
{
    if a >= 0 {
        lemma_div_by_multiple(a, b);
        assert(a * b >= 0) by (nonlinear_arith)
            requires
                a >= 0,
                b >= 1,
        ;
    } else {
        lemma_div_by_multiple(-a, b);
        assert(a * b < 0 && (-a) * b == -(a * b)) by (nonlinear_arith)
            requires
                a < 0,
                b >= 1,
        ;
    }
}

/// A truncated quotient whose dividend is bounded by `m * b` is bounded by `m`.
pub proof fn lemma_trunc_div_bound(a: int, b: int, m: int)
    requires
        b >= 1,
        m >= 0,
        -(m * b) <= a <= m * b,
    ensures
        -m <= trunc_div(a, b) <= m,
{
    if a >= 0 {
        lemma_div_pos_is_pos(a, b);
        lemma_div_is_ordered(a, m * b, b);
        lemma_div_by_multiple(m, b);
    } else {
        lemma_div_pos_is_pos(-a, b);
        lemma_div_is_ordered(-a, m * b, b);
        lemma_div_by_multiple(m, b);
    }
}

/// The truncated quotient never exceeds the dividend in magnitude (`b >= 1`).
pub proof fn lemma_trunc_div_le(a: int, b: int)
    requires
        b >= 1,
    ensures
        if a >= 0 {
            0 <= trunc_div(a, b) <= a
        } else {
            a <= trunc_div(a, b) <= 0
        },
{
    let m = if a >= 0 { a } else { -a };
    assert(m <= m * b) by (nonlinear_arith)
        requires
            m >= 0,
            b >= 1,
    ;
    lemma_trunc_div_bound(a, b, m);
}

/// Rust's `/` on `i64`, proved to compute `trunc_div`.
pub fn div_trunc_i64(a: i64, b: i64) -> (q: i64)
    requires
        b != 0,
        a != i64::MIN,
    ensures
        q == trunc_div(a as int, b as int),
{
    let na: u64 = if a < 0 {
        (-a) as u64
    } else {
        a as u64
    };
    let nb: u64 = if b < 0 {
        if b == i64::MIN {
            9223372036854775808u64
        } else {
            (-b) as u64
        }
    } else {
        b as u64
    };
    let q0: u64 = na / nb;
    proof {
        lemma_div_pos_is_pos(na as int, nb as int);
        assert(q0 <= na) by {
            assert(na as int <= (na as int) * (nb as int)) by (nonlinear_arith)
                requires
                    na as int >= 0,
                    nb as int >= 1,
            ;
            lemma_div_is_ordered(na as int, (na as int) * (nb as int), nb as int);
            lemma_div_by_multiple(na as int, nb as int);
        }
    }
    if (a < 0) != (b < 0) {
        -(q0 as i64)
    } else {
        q0 as i64
    }
}

/// Division rounded to the nearest integer, ties away from zero, proved to
/// compute `round_div`.
pub fn div_round_i64(a: i64, b: i64) -> (q: i64)
    requires
        b != 0,
        -0x2000_0000_0000_0000 < a < 0x2000_0000_0000_0000,
        -0x2000_0000_0000_0000 < b < 0x2000_0000_0000_0000,
    ensures
        q == round_div(a as int, b as int),
{
    let (p, d): (i64, i64) = if b < 0 {
        (-a, -b)
    } else {
        (a, b)
    };
    let pp: i64 = if p >= 0 {
        p
    } else {
        -p
    };
    let num: u64 = (2 * pp + d) as u64;
    let den: u64 = (2 * d) as u64;
    let q0: u64 = num / den;
    proof {
        lemma_div_pos_is_pos(num as int, den as int);
        assert(q0 <= num) by {
            assert(num as int <= (num as int) * (den as int)) by (nonlinear_arith)
                requires
                    num as int >= 0,
                    den as int >= 1,
            ;
            lemma_div_is_ordered(num as int, (num as int) * (den as int), den as int);
            lemma_div_by_multiple(num as int, den as int);
        }
    }
    if p >= 0 {
        q0 as i64
    } else {
        -(q0 as i64)
    }
}

/// Rust's `/` on `i128`, proved to compute `trunc_div`.
pub fn div_trunc_i128(a: i128, b: i128) -> (q: i128)
    requires
        b != 0,
        a != i128::MIN,
        b != i128::MIN,
    ensures
        q == trunc_div(a as int, b as int),
{
    let na: u128 = if a < 0 {
        (-a) as u128
    } else {
        a as u128
    };
    let nb: u128 = if b < 0 {
        (-b) as u128
    } else {
        b as u128
    };
    let q0: u128 = na / nb;
    proof {
        lemma_div_pos_is_pos(na as int, nb as int);
        assert(q0 <= na) by {
            assert(na as int <= (na as int) * (nb as int)) by (nonlinear_arith)
                requires
                    na as int >= 0,
                    nb as int >= 1,
            ;
            lemma_div_is_ordered(na as int, (na as int) * (nb as int), nb as int);
            lemma_div_by_multiple(na as int, nb as int);
        }
    }
    if (a < 0) != (b < 0) {
        -(q0 as i128)
    } else {
        q0 as i128
    }
}

} // verus!
