//! The force law: a piecewise-linear function of normalized distance and
//! attraction coefficient. Universal repulsion below `BETA`, a triangular
//! attraction/repulsion profile scaled by the coefficient between `BETA`
//! and `1.0`, and zero at or beyond the cutoff.

use vstd::prelude::*;
use crate::math::{abs_i, fmul, muldiv, mul_div_i128, SCALE};
use vstd::arithmetic::div_mod::{
    lemma_div_is_ordered, lemma_div_multiples_vanish, lemma_div_pos_is_pos,
    lemma_multiply_divide_lt,
};

verus! {

/// Boundary between the repulsion zone and the attraction band: 0.3.
pub const BETA: i64 = 300_000;

/// Interaction cutoff radius in length units: 5.0 blocks.
pub const R_MAX: i64 = 5_000_000;

/// Global scale applied to every accumulated force: 10.0.
pub const FORCE_FACTOR: i64 = 10_000_000;

/// Repulsion branch, for `r < BETA`: `r / BETA - 1`.
pub open spec fn spec_repulsion(r: int) -> int {
    muldiv(r, SCALE as int, BETA as int) - SCALE
}

/// Middle branch, for `BETA <= r < 1`:
/// `a * (1 - |2r - 1 - BETA| / (1 - BETA))`.
pub open spec fn spec_mid_band(r: int, a: int) -> int {
    let t = abs_i(2 * r - SCALE - BETA);
    let w = SCALE - muldiv(t, SCALE as int, (SCALE - BETA) as int);
    fmul(a, w)
}

/// The force law on a normalized distance `r` and coefficient `a`,
/// both fixed-point scalars.
pub open spec fn spec_force(r: int, a: int) -> int {
    if r < BETA {
        spec_repulsion(r)
    } else if r < SCALE {
        spec_mid_band(r, a)
    } else {
        0
    }
}

/// The force law is continuous at both breakpoints: at `r = BETA` the
/// repulsion branch and the middle branch agree (both vanish), and at
/// `r = 1` the middle branch meets the zero tail.
pub proof fn lemma_force_continuous(a: int)
    ensures
        spec_repulsion(BETA as int) == 0,
        spec_mid_band(BETA as int, a) == 0,
        spec_force(BETA as int, a) == 0,
        spec_mid_band(SCALE as int, a) == 0,
        spec_force(SCALE as int, a) == 0,
{
    lemma_div_multiples_vanish(SCALE as int, BETA as int);
    assert(((BETA as int) * (SCALE as int)) / (BETA as int) == SCALE);
    assert(spec_repulsion(BETA as int) == 0);
    lemma_div_multiples_vanish(SCALE as int, (SCALE - BETA) as int);
    assert((((SCALE - BETA) as int) * (SCALE as int)) / ((SCALE - BETA) as int) == SCALE);
    assert(abs_i(2 * (BETA as int) - SCALE - BETA) == SCALE - BETA);
    assert(muldiv((SCALE - BETA) as int, SCALE as int, (SCALE - BETA) as int) == SCALE);
    assert(abs_i(2 * (SCALE as int) - SCALE - BETA) == SCALE - BETA);
    lemma_fmul_zero_right(a);
}

/// `a * 0 == 0` for the fixed-point product.
proof fn lemma_fmul_zero_right(a: int)
    ensures
        fmul(a, 0) == 0,
{
    assert(abs_i(a) * abs_i(0) == 0) by (nonlinear_arith);
}

/// A zero coefficient gives zero force throughout the middle band.
pub proof fn lemma_force_zero_coefficient(r: int)
    requires
        BETA <= r < SCALE,
    ensures
        spec_force(r, 0) == 0,
{
    let t = abs_i(2 * r - SCALE - BETA);
    let w = SCALE - muldiv(t, SCALE as int, (SCALE - BETA) as int);
    assert(abs_i(0) * abs_i(w) == 0) by (nonlinear_arith);
}

/// No interaction at or beyond the cutoff distance.
pub proof fn lemma_force_beyond_cutoff(r: int, a: int)
    requires
        r >= SCALE,
    ensures
        spec_force(r, a) == 0,
{
}

/// Below `BETA` the force is strictly repulsive, whatever the coefficient.
pub proof fn lemma_force_repulsive(r: int, a: int)
    requires
        0 < r < BETA,
    ensures
        spec_force(r, a) < 0,
        spec_force(r, a) == spec_repulsion(r),
{
    assert(r * (SCALE as int) < (BETA as int) * (SCALE as int));
    lemma_multiply_divide_lt(r * (SCALE as int), BETA as int, SCALE as int);
}

/// The magnitude of the force never exceeds the coefficient's magnitude
/// plus one whole unit.
pub proof fn lemma_force_magnitude(r: int, a: int)
    requires
        r >= 0,
    ensures
        abs_i(spec_force(r, a)) <= abs_i(a) + SCALE,
{
    if r < BETA {
        let q = muldiv(r, SCALE as int, BETA as int);
        assert(r * (SCALE as int) < (BETA as int) * (SCALE as int));
        lemma_multiply_divide_lt(r * (SCALE as int), BETA as int, SCALE as int);
        assert(0 <= r * (SCALE as int));
        lemma_div_pos_is_pos(r * (SCALE as int), BETA as int);
    } else if r < SCALE {
        lemma_mid_band_magnitude(r, a);
    }
}

/// In the middle band the weight lies in `[0, 1]`, so the force magnitude
/// is bounded by the coefficient's.
pub proof fn lemma_mid_band_magnitude(r: int, a: int)
    requires
        BETA <= r < SCALE,
    ensures
        abs_i(spec_mid_band(r, a)) <= abs_i(a),
{
    let t = abs_i(2 * r - SCALE - BETA);
    assert(t <= SCALE - BETA);
    let q = muldiv(t, SCALE as int, (SCALE - BETA) as int);
    assert(t * (SCALE as int) <= ((SCALE - BETA) as int) * (SCALE as int));
    lemma_div_is_ordered(
        t * (SCALE as int),
        ((SCALE - BETA) as int) * (SCALE as int),
        (SCALE - BETA) as int,
    );
    lemma_div_multiples_vanish(SCALE as int, (SCALE - BETA) as int);
    assert((((SCALE - BETA) as int) * (SCALE as int)) / ((SCALE - BETA) as int) == SCALE);
    assert(0 <= t * (SCALE as int));
    lemma_div_pos_is_pos(t * (SCALE as int), (SCALE - BETA) as int);
    let w = SCALE - q;
    assert(0 <= w <= SCALE);
    crate::math::lemma_muldiv_magnitude(a, w, SCALE as int);
}

/// Evaluate the force law.
///
/// `r` is the distance divided by `R_MAX` (so the cutoff sits at `SCALE`),
/// `a` the attraction coefficient for the ordered pair of types.
pub fn force(r: i64, a: i64) -> (f: i64)
    requires
        r >= 0,
    ensures
        f as int == spec_force(r as int, a as int),
{
    if r < BETA {
        let q = mul_div_i128(r as i128, SCALE as i128, BETA as i128);
        proof {
            assert(abs_i(r as int) * abs_i(SCALE as int) <= i128::MAX as int) by (nonlinear_arith)
                requires
                    0 <= r < BETA,
            ;
            assert(r as int * (SCALE as int) < (BETA as int) * (SCALE as int));
            lemma_multiply_divide_lt(r as int * (SCALE as int), BETA as int, SCALE as int);
            lemma_div_pos_is_pos(r as int * (SCALE as int), BETA as int);
        }
        (q as i64) - SCALE
    } else if r < SCALE {
        let d: i64 = 2 * r - SCALE - BETA;
        let t: i64 = if d < 0 {
            -d
        } else {
            d
        };
        let q = mul_div_i128(t as i128, SCALE as i128, (SCALE - BETA) as i128);
        proof {
            assert(abs_i(t as int) * abs_i(SCALE as int) <= i128::MAX as int) by (nonlinear_arith)
                requires
                    0 <= t <= SCALE - BETA,
            ;
            assert(t as int * (SCALE as int) <= ((SCALE - BETA) as int) * (SCALE as int));
            lemma_div_is_ordered(
                t as int * (SCALE as int),
                ((SCALE - BETA) as int) * (SCALE as int),
                (SCALE - BETA) as int,
            );
            lemma_div_multiples_vanish(SCALE as int, (SCALE - BETA) as int);
            assert((((SCALE - BETA) as int) * (SCALE as int)) / ((SCALE - BETA) as int)
                == SCALE);
            lemma_div_pos_is_pos(t as int * (SCALE as int), (SCALE - BETA) as int);
        }
        let w: i64 = SCALE - (q as i64);
        proof {
            crate::math::lemma_abs_mul_le(a as int, w as int, i64::MAX as int + 1, SCALE as int);
        }
        let fm = mul_div_i128(a as i128, w as i128, SCALE as i128);
        proof {
            crate::math::lemma_muldiv_magnitude(a as int, w as int, SCALE as int);
            if a >= 0 {
                assert(fm >= 0);
            } else {
                assert(fm <= 0);
            }
        }
        fm as i64
    } else {
        0
    }
}

} // verus!
