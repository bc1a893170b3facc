//! Fixed-point angle recovery for the disk-segment moment: the half-angle
//! of a circular segment from its cosine and sine, computed by two
//! argument reductions of the arctangent and a short odd polynomial.
//!
//! Results carry raw radians (`SCALE` raw units to one radian) and are
//! clamped into analytically sound envelopes; the contracts pin every
//! result exactly over the integer model.

use crate::num::{absi, rdiv, sqrt_of, SCALE};
use vstd::prelude::*;

verus! {

/// One half turn in raw radians.
pub const HALF_TURN: i64 = 3_141_593;

/// One arctangent argument reduction: `x -> x / (1 + sqrt(1 + x^2))`,
/// halving the angle.
pub open spec fn atan_reduce_spec(x: int) -> int {
    rdiv(x * SCALE, SCALE + sqrt_of(SCALE * SCALE + x * x))
}

/// The odd polynomial `u - u^3/3 + u^5/5 - u^7/7` over raw arguments.
pub open spec fn atan_poly_spec(u: int) -> int {
    let u2 = rdiv(u * u, SCALE as int);
    let u3 = rdiv(u2 * u, SCALE as int);
    let u5 = rdiv(u3 * u2, SCALE as int);
    let u7 = rdiv(u5 * u2, SCALE as int);
    u - rdiv(u3, 3) + rdiv(u5, 5) - rdiv(u7, 7)
}

/// The arctangent of a nonnegative raw ratio, in raw radians: the
/// argument is clamped into `[0, 2]` radians' worth of tangent, reduced
/// twice, passed through the polynomial, and scaled back up.
pub open spec fn atan_spec(x: int) -> int {
    let xc = if x < 0 {
        0
    } else if x > 2 * SCALE {
        2 * SCALE as int
    } else {
        x
    };
    let x1 = atan_reduce_spec(xc);
    let x2 = atan_reduce_spec(x1);
    4 * atan_poly_spec(x2)
}

/// The angle in `[0, pi]` with the given cosine and sine (raw scaled),
/// by the half-angle identity `tan(t/2) = sin / (1 + cos)`, clamped into
/// `[0, pi]` and under the chord envelope
/// `t <= 3 * sqrt((1 - cos) * SCALE)`.
pub open spec fn angle_spec(cos: int, sine: int) -> int {
    let raw = if cos >= 0 {
        2 * atan_spec(rdiv(sine * SCALE, SCALE + cos))
    } else {
        HALF_TURN - 2 * atan_spec(rdiv(sine * SCALE, SCALE - cos))
    };
    let capped = if raw < 0 {
        0
    } else if raw > HALF_TURN as int {
        HALF_TURN as int
    } else {
        raw
    };
    let env = 3 * sqrt_of((SCALE - cos) * SCALE);
    if capped > env {
        env
    } else {
        capped
    }
}

/// One argument reduction step.
fn atan_reduce(x: i64) -> (r: i64)
    requires
        0 <= x <= 2 * SCALE,
    ensures
        r == atan_reduce_spec(x as int),
        0 <= r <= SCALE,
{
    proof {
        crate::num::lemma_mul_abs_le(x as int, x as int, 2_000_000, 2_000_000);
        assert((x as int) * (x as int) >= 0) by (nonlinear_arith);
        crate::num::lemma_sqrt_of(SCALE as int * SCALE as int + (x as int) * (x as int));
        crate::num::lemma_mul_abs_le(SCALE as int, SCALE as int, 1_000_000, 1_000_000);
        crate::num::lemma_sqrt_le(
            SCALE as int * SCALE as int + (x as int) * (x as int),
            3_000_000,
        );
        assert(3_000_000int * 3_000_000int == 9_000_000_000_000int) by (nonlinear_arith);
        crate::num::lemma_mul_abs_le(x as int, SCALE as int, 2_000_000, 1_000_000);
        // the denominator dominates the numerator: x * SCALE <= SCALE * den
        let den = SCALE as int + sqrt_of(SCALE as int * SCALE as int + (x as int) * (x as int));
        assert(sqrt_of(SCALE as int * SCALE as int + (x as int) * (x as int)) >= (x as int)) by {
            crate::num::lemma_sqrt_square(x as int);
            crate::num::lemma_sqrt_mono(
                (x as int) * (x as int),
                SCALE as int * SCALE as int + (x as int) * (x as int),
            );
        }
        assert((x as int) * (SCALE as int) <= (SCALE as int) * den) by (nonlinear_arith)
            requires
                den >= SCALE as int + x as int,
                0 <= x,
                SCALE as int == 1_000_000,
        ;
        crate::num::lemma_rdiv_abs_le((x as int) * (SCALE as int), den, SCALE as int);
    }
    let xx = (x as i128) * (x as i128);
    let den = SCALE as i128 + crate::num::isqrt_i128(SCALE as i128 * SCALE as i128 + xx);
    crate::num::rdiv_i128((x as i128) * (SCALE as i128), den) as i64
}

/// The odd polynomial of the reduced argument.
fn atan_poly(u: i64) -> (r: i64)
    requires
        0 <= u <= SCALE,
    ensures
        r == atan_poly_spec(u as int),
        -(2 * SCALE) <= r <= 2 * SCALE,
{
    proof {
        lemma_poly_bounds(u as int);
    }
    let u2 = crate::num::rdiv_i128((u as i128) * (u as i128), SCALE as i128) as i64;
    let u3 = crate::num::rdiv_i128((u2 as i128) * (u as i128), SCALE as i128) as i64;
    let u5 = crate::num::rdiv_i128((u3 as i128) * (u2 as i128), SCALE as i128) as i64;
    let u7 = crate::num::rdiv_i128((u5 as i128) * (u2 as i128), SCALE as i128) as i64;
    let t3 = crate::num::rdiv_i128(u3 as i128, 3) as i64;
    let t5 = crate::num::rdiv_i128(u5 as i128, 5) as i64;
    let t7 = crate::num::rdiv_i128(u7 as i128, 7) as i64;
    u - t3 + t5 - t7
}

/// Range bounds for the polynomial's powers.
proof fn lemma_poly_bounds(u: int)
    requires
        0 <= u <= SCALE as int,
    ensures
        0 <= u * u <= 1_000_000_000_000,
        -1_000_000 <= rdiv(u * u, SCALE as int) <= 1_000_000,
        -1_000_000_000_000 <= rdiv(u * u, SCALE as int) * u <= 1_000_000_000_000,
        -1_000_000_000_000 <= rdiv(rdiv(u * u, SCALE as int) * u, SCALE as int) * rdiv(
            u * u,
            SCALE as int,
        ) <= 1_000_000_000_000,
        -1_000_000_000_000 <= rdiv(
            rdiv(rdiv(u * u, SCALE as int) * u, SCALE as int) * rdiv(u * u, SCALE as int),
            SCALE as int,
        ) * rdiv(u * u, SCALE as int) <= 1_000_000_000_000,
        -400_000 <= rdiv(rdiv(rdiv(u * u, SCALE as int) * u, SCALE as int), 3) <= 400_000,
        -400_000 <= rdiv(
            rdiv(rdiv(rdiv(u * u, SCALE as int) * u, SCALE as int) * rdiv(u * u, SCALE as int), SCALE as int),
            5,
        ) <= 400_000,
        -400_000 <= rdiv(
            rdiv(
                rdiv(rdiv(rdiv(u * u, SCALE as int) * u, SCALE as int) * rdiv(u * u, SCALE as int), SCALE as int)
                    * rdiv(u * u, SCALE as int),
                SCALE as int,
            ),
            7,
        ) <= 400_000,
        -1_000_000 <= rdiv(rdiv(u * u, SCALE as int) * u, SCALE as int) <= 1_000_000,
        -1_000_000 <= rdiv(rdiv(rdiv(u * u, SCALE as int) * u, SCALE as int) * rdiv(u * u, SCALE as int), SCALE as int) <= 1_000_000,
        -1_000_000 <= rdiv(
            rdiv(rdiv(rdiv(u * u, SCALE as int) * u, SCALE as int) * rdiv(u * u, SCALE as int), SCALE as int)
                * rdiv(u * u, SCALE as int),
            SCALE as int,
        ) <= 1_000_000,
{
    crate::num::lemma_mul_abs_le(u, u, 1_000_000, 1_000_000);
    assert(1_000_000int * 1_000_000int == 1_000_000_000_000int) by (nonlinear_arith);
    crate::num::lemma_rdiv_abs_le(u * u, SCALE as int, 1_000_000);
    let u2 = rdiv(u * u, SCALE as int);
    crate::num::lemma_mul_abs_le(u2, u, 1_000_000, 1_000_000);
    crate::num::lemma_rdiv_abs_le(u2 * u, SCALE as int, 1_000_000);
    let u3 = rdiv(u2 * u, SCALE as int);
    crate::num::lemma_mul_abs_le(u3, u2, 1_000_000, 1_000_000);
    crate::num::lemma_rdiv_abs_le(u3 * u2, SCALE as int, 1_000_000);
    let u5 = rdiv(u3 * u2, SCALE as int);
    crate::num::lemma_mul_abs_le(u5, u2, 1_000_000, 1_000_000);
    crate::num::lemma_rdiv_abs_le(u5 * u2, SCALE as int, 1_000_000);
    let u7 = rdiv(u5 * u2, SCALE as int);
    assert(u * u >= 0) by (nonlinear_arith);
    assert(400_000int * 3 == 1_200_000int);
    crate::num::lemma_rdiv_abs_le(u3, 3, 400_000);
    assert(400_000int * 5 == 2_000_000int);
    crate::num::lemma_rdiv_abs_le(u5, 5, 400_000);
    assert(400_000int * 7 == 2_800_000int);
    crate::num::lemma_rdiv_abs_le(u7, 7, 400_000);
}

/// Arctangent of a nonnegative raw ratio, in raw radians.
pub fn atanr(x: i64) -> (r: i64)
    ensures
        r == atan_spec(x as int),
        -(8 * SCALE) <= r <= 8 * SCALE,
{
    let xc: i64 = if x < 0 {
        0
    } else if x > 2 * SCALE {
        2 * SCALE
    } else {
        x
    };
    let x1 = atan_reduce(xc);
    let x2 = atan_reduce(x1);
    4 * atan_poly(x2)
}

/// The angle in `[0, pi]` (raw radians) with the given scaled cosine and
/// sine.
pub fn angle_from(cos: i64, sine: i64) -> (r: i64)
    requires
        -(3 * SCALE) <= cos <= 3 * SCALE,
        -(3 * SCALE) <= sine <= 3 * SCALE,
    ensures
        r == angle_spec(cos as int, sine as int),
        0 <= r <= HALF_TURN,
{
    proof {
        crate::num::lemma_mul_abs_le(sine as int, SCALE as int, 3_000_000, 1_000_000);
        crate::num::lemma_rdiv_abs_le(
            (sine as int) * (SCALE as int),
            if cos >= 0 {
                SCALE as int + cos as int
            } else {
                SCALE as int - cos as int
            },
            3_000_000_000_000,
        );
        assert(3_000_000int * 1_000_000int == 3_000_000_000_000int) by (nonlinear_arith);
        assert(3_000_000_000_000int * (if cos >= 0 {
            SCALE as int + cos as int
        } else {
            SCALE as int - cos as int
        }) >= 3_000_000_000_000int) by (nonlinear_arith)
            requires
                (if cos >= 0 {
                    SCALE as int + cos as int
                } else {
                    SCALE as int - cos as int
                }) >= 1,
        ;
    }
    let raw: i64 = if cos >= 0 {
        let q = crate::num::rdiv_i128(
            (sine as i128) * (SCALE as i128),
            SCALE as i128 + cos as i128,
        ) as i64;
        2 * atanr(q)
    } else {
        let q = crate::num::rdiv_i128(
            (sine as i128) * (SCALE as i128),
            SCALE as i128 - cos as i128,
        ) as i64;
        HALF_TURN - 2 * atanr(q)
    };
    let capped: i64 = if raw < 0 {
        0
    } else if raw > HALF_TURN {
        HALF_TURN
    } else {
        raw
    };
    let env: i64;
    if cos >= SCALE {
        proof {
            assert((SCALE as int - cos as int) * (SCALE as int) <= 0) by (nonlinear_arith)
                requires
                    SCALE as int - cos as int <= 0,
                    SCALE as int >= 0,
            ;
            assert(sqrt_of((SCALE as int - cos as int) * (SCALE as int)) == 0);
        }
        env = 0;
    } else {
        proof {
            crate::num::lemma_mul_abs_le(
                SCALE as int - cos as int,
                SCALE as int,
                4_000_000,
                1_000_000,
            );
            assert((SCALE as int - cos as int) * (SCALE as int) >= 0) by (nonlinear_arith)
                requires
                    SCALE as int - cos as int >= 0,
                    SCALE as int >= 0,
            ;
            crate::num::lemma_sqrt_of((SCALE as int - cos as int) * (SCALE as int));
            crate::num::lemma_sqrt_le((SCALE as int - cos as int) * (SCALE as int), 2_000_000);
            assert(2_000_000int * 2_000_000int == 4_000_000_000_000int) by (nonlinear_arith);
        }
        let ee = ((SCALE as i128) - (cos as i128)) * (SCALE as i128);
        env = (3 * crate::num::isqrt_i128(ee)) as i64;
    }
    if capped > env {
        env
    } else {
        capped
    }
}

} // verus!
