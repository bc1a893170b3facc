//! Fixed-point scalar arithmetic: every coordinate is an integer count of
//! raw units, `SCALE` raw units to one coordinate unit.  Rounded division and
//! integer square root are the only inexact operations of the kernel, and
//! both are pinned exactly by their contracts.

use vstd::arithmetic::div_mod::lemma_fundamental_div_mod;
use vstd::prelude::*;

verus! {

/// Raw units in one coordinate unit: six fractional decimal digits.
pub const SCALE: i64 = 1_000_000;

/// Tolerance of the kernel in raw units: quantities below one raw unit
/// (one millionth of a coordinate unit) are treated as zero.
pub const EPS: i64 = 1;

/// Largest coordinate magnitude the kernel accepts, in raw units (100.0).
pub const COORD_LIMIT: i64 = 100_000_000;

/// Largest endpoint magnitude accepted for lines and segments, raw units:
/// wider than the point range, so that boundary edges of well-formed
/// half-planes are themselves well-formed lines.
pub const LINE_LIMIT: i64 = 1_100_000_000;

/// Tolerance for quantities quadratic in coordinates (raw-squared units):
/// the kernel tolerance scaled by `SCALE`.
pub const EPS2: i64 = EPS * SCALE;

/// Absolute value.
pub open spec fn absi(x: int) -> int {
    if x < 0 {
        -x
    } else {
        x
    }
}

/// Smaller of two integers.
pub open spec fn mini(a: int, b: int) -> int {
    if a < b {
        a
    } else {
        b
    }
}

/// Larger of two integers.
pub open spec fn maxi(a: int, b: int) -> int {
    if a < b {
        b
    } else {
        a
    }
}

/// Clamp into a symmetric interval.
pub open spec fn clampi(x: int, b: int) -> int {
    if x > b {
        b
    } else if x < -b {
        -b
    } else {
        x
    }
}

/// Clamp into a closed interval.
pub open spec fn clampr(x: int, lo: int, hi: int) -> int {
    if x < lo {
        lo
    } else if x > hi {
        hi
    } else {
        x
    }
}

/// Division rounded to the nearest integer for a positive divisor;
/// halves round away from zero.
pub open spec fn rdiv(n: int, d: int) -> int {
    if n >= 0 {
        (2 * n + d) / (2 * d)
    } else {
        -((2 * -n + d) / (2 * d))
    }
}

/// The rounding error of `rdiv` is at most half the divisor:
/// `2 * |rdiv(n, d) * d - n| <= d`.
pub proof fn lemma_rdiv_err(n: int, d: int)
    requires
        d >= 1,
    ensures
        2 * (rdiv(n, d) * d - n) <= d,
        -d <= 2 * (rdiv(n, d) * d - n),
{
    if n >= 0 {
        lemma_rdiv_err_nonneg(n, d);
    } else {
        lemma_rdiv_err_nonneg(-n, d);
        assert(rdiv(n, d) == -rdiv(-n, d));
        assert(rdiv(n, d) * d == -(rdiv(-n, d) * d)) by {
            vstd::arithmetic::mul::lemma_mul_unary_negation(rdiv(-n, d), d);
        }
    }
}

proof fn lemma_rdiv_err_nonneg(n: int, d: int)
    requires
        d >= 1,
        n >= 0,
    ensures
        2 * (rdiv(n, d) * d - n) <= d,
        -d <= 2 * (rdiv(n, d) * d - n),
{
    let q = (2 * n + d) / (2 * d);
    let r = (2 * n + d) % (2 * d);
    lemma_fundamental_div_mod(2 * n + d, 2 * d);
    assert(2 * n + d == 2 * d * q + r);
    assert(0 <= r < 2 * d);
    assert(2 * (q * d - n) == d - r) by (nonlinear_arith)
        requires
            2 * n + d == 2 * d * q + r,
    ;
}

/// Magnitude bound carried through `rdiv`: if `|n| <= b * d` then
/// `|rdiv(n, d)| <= b`.
pub proof fn lemma_rdiv_abs_le(n: int, d: int, b: int)
    requires
        d >= 1,
        b >= 0,
        -(b * d) <= n <= b * d,
    ensures
        -b <= rdiv(n, d) <= b,
{
    lemma_rdiv_err(n, d);
    let q = rdiv(n, d);
    if q > b {
        assert(q * d >= (b + 1) * d) by {
            vstd::arithmetic::mul::lemma_mul_inequality(b + 1, q, d);
        }
        assert((b + 1) * d == b * d + d) by {
            vstd::arithmetic::mul::lemma_mul_is_distributive_add_other_way(d, b, 1);
        }
        assert(false);
    }
    if q < -b {
        assert(q * d <= -((b + 1) * d)) by {
            vstd::arithmetic::mul::lemma_mul_inequality(q, -(b + 1), d);
            vstd::arithmetic::mul::lemma_mul_unary_negation(b + 1, d);
        }
        assert((b + 1) * d == b * d + d) by {
            vstd::arithmetic::mul::lemma_mul_is_distributive_add_other_way(d, b, 1);
        }
        assert(false);
    }
}

/// Rounded division of raw quantities, the one rounding step of every
/// derived coordinate.
pub fn rdiv_i128(n: i128, d: i128) -> (q: i128)
    requires
        1 <= d,
        d <= 0x2000_0000_0000_0000_0000_0000_0000_0000,
        -0x2000_0000_0000_0000_0000_0000_0000_0000 <= n,
        n <= 0x2000_0000_0000_0000_0000_0000_0000_0000,
    ensures
        q == rdiv(n as int, d as int),
{
    if n >= 0 {
        (2 * n + d) / (2 * d)
    } else {
        proof {
            lemma_rdiv_err_nonneg(-(n as int), d as int);
        }
        -((2 * -n + d) / (2 * d))
    }
}

/// Integer square root, rounded down.
pub open spec fn sqrt_of(x: int) -> int
    decreases x,
{
    if x < 2 {
        if x < 1 {
            0
        } else {
            1
        }
    } else {
        let r = 2 * sqrt_of(x / 4);
        if (r + 1) * (r + 1) <= x {
            r + 1
        } else {
            r
        }
    }
}

/// `sqrt_of(x)` is the exact floor of the square root of `x`.
pub proof fn lemma_sqrt_of(x: int)
    requires
        x >= 0,
    ensures
        sqrt_of(x) >= 0,
        sqrt_of(x) * sqrt_of(x) <= x,
        x < (sqrt_of(x) + 1) * (sqrt_of(x) + 1),
    decreases x,
{
    if x < 2 {
        if x < 1 {
            assert(sqrt_of(x) == 0);
            assert(x < (0 + 1) * (0 + 1));
        } else {
            assert(sqrt_of(x) == 1);
            assert(x < (1 + 1) * (1 + 1));
        }
    } else {
        let s = sqrt_of(x / 4);
        lemma_div_bounds_4(x);
        lemma_sqrt_of(x / 4);
        let r = 2 * s;
        assert(r * r == 4 * (s * s)) by (nonlinear_arith)
            requires
                r == 2 * s,
        ;
        assert(4 * (s * s) <= 4 * (x / 4));
        assert((r + 2) * (r + 2) == 4 * ((s + 1) * (s + 1))) by (nonlinear_arith)
            requires
                r == 2 * s,
        ;
        assert(4 * ((s + 1) * (s + 1)) >= 4 * ((x / 4) + 1));
        if (r + 1) * (r + 1) <= x {
            assert(sqrt_of(x) == r + 1);
            assert(x <= 4 * (x / 4) + 3);
            assert(x < (r + 2) * (r + 2));
            assert((r + 1 + 1) * (r + 1 + 1) == (r + 2) * (r + 2)) by (nonlinear_arith);
        } else {
            assert(sqrt_of(x) == r);
            assert(x < (r + 1) * (r + 1));
            assert(r * r <= 4 * (x / 4));
            assert(4 * (x / 4) <= x);
        }
    }
}

/// Euclidean quarter bounds: `4 * (x / 4)` is within 3 of `x`.
proof fn lemma_div_bounds_4(x: int)
    requires
        x >= 0,
    ensures
        0 <= x / 4,
        x / 4 < x || x < 2,
        4 * (x / 4) <= x,
        x <= 4 * (x / 4) + 3,
{
    lemma_fundamental_div_mod(x, 4);
    vstd::arithmetic::div_mod::lemma_div_pos_is_pos(x, 4);
}

/// Square roots preserve order.
pub proof fn lemma_sqrt_mono(x: int, y: int)
    requires
        0 <= x <= y,
    ensures
        sqrt_of(x) <= sqrt_of(y),
{
    lemma_sqrt_of(x);
    lemma_sqrt_of(y);
    let a = sqrt_of(x);
    let b = sqrt_of(y);
    if a > b {
        assert((b + 1) * (b + 1) <= a * a) by (nonlinear_arith)
            requires b >= 0, b + 1 <= a;
        assert(false);
    }
}

/// Integer square root of a raw quantity.
pub fn isqrt_u128(x: u128) -> (r: u128)
    requires
        x < 0x4000_0000_0000_0000_0000_0000_0000_0000,
    ensures
        r == sqrt_of(x as int),
    decreases x,
{
    if x < 2 {
        if x < 1 {
            0
        } else {
            1
        }
    } else {
        let s = isqrt_u128(x / 4);
        proof {
            lemma_div_bounds_4(x as int);
            lemma_sqrt_of(x as int / 4);
            assert(s * s <= x as int / 4);
            assert(s <= 0x4000_0000_0000_0000) by (nonlinear_arith)
                requires
                    0 <= s,
                    s * s < 0x1000_0000_0000_0000_0000_0000_0000_0000,
            ;
            assert((2 * (s as int) + 1) * (2 * (s as int) + 1)
                <= 0x8000_0000_0000_0000_0000_0000_0000_0001) by (nonlinear_arith)
                requires
                    0 <= s <= 0x4000_0000_0000_0000,
            ;
        }
        let r = 2 * s;
        if (r + 1) * (r + 1) <= x {
            r + 1
        } else {
            r
        }
    }
}

/// Integer square root of a nonnegative signed raw quantity.
pub fn isqrt_i128(x: i128) -> (r: i128)
    requires
        0 <= x,
        x < 0x4000_0000_0000_0000_0000_0000_0000_0000,
    ensures
        r == sqrt_of(x as int),
        r >= 0,
{
    let u = isqrt_u128(x as u128);
    proof {
        lemma_sqrt_of(x as int);
        assert(u * u <= x as int);
        assert(u <= 0x8000_0000_0000_0000) by (nonlinear_arith)
            requires
                0 <= u,
                u * u < 0x4000_0000_0000_0000_0000_0000_0000_0000,
        ;
    }
    u as i128
}

/// The square root of a perfect square is exact.
pub proof fn lemma_sqrt_square(k: int)
    ensures
        sqrt_of(k * k) == absi(k),
{
    let a = absi(k);
    assert(k * k == a * a) by (nonlinear_arith)
        requires
            a == absi(k),
    ;
    assert(a * a >= 0) by (nonlinear_arith);
    lemma_sqrt_of(a * a);
    let s = sqrt_of(a * a);
    if s < a {
        assert((s + 1) * (s + 1) <= a * a) by (nonlinear_arith)
            requires
                0 <= s,
                s + 1 <= a,
        ;
        assert(false);
    }
    if s > a {
        assert(s * s >= (a + 1) * (a + 1)) by (nonlinear_arith)
            requires
                0 <= a,
                a + 1 <= s,
        ;
        assert((a + 1) * (a + 1) > a * a) by (nonlinear_arith)
            requires
                0 <= a,
        ;
        assert(false);
    }
}

/// Magnitude bound through a square root: if `x <= b * b` then
/// `sqrt_of(x) <= b`.
pub proof fn lemma_sqrt_le(x: int, b: int)
    requires
        0 <= x,
        0 <= b,
        x <= b * b,
    ensures
        sqrt_of(x) <= b,
{
    lemma_sqrt_of(x);
    let r = sqrt_of(x);
    if r > b {
        assert(r * r >= (b + 1) * (b + 1)) by (nonlinear_arith)
            requires 0 <= b, b + 1 <= r;
        assert((b + 1) * (b + 1) > b * b) by (nonlinear_arith)
            requires 0 <= b;
        assert(false);
    }
}

/// Product bound: magnitudes multiply.
pub proof fn lemma_mul_abs_le(a: int, b: int, ba: int, bb: int)
    requires
        -ba <= a <= ba,
        -bb <= b <= bb,
    ensures
        -(ba * bb) <= a * b <= ba * bb,
{
    assert(-(ba * bb) <= a * b <= ba * bb) by (nonlinear_arith)
        requires
            -ba <= a <= ba,
            -bb <= b <= bb;
}

} // verus!
