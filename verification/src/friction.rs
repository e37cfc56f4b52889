//! Frame-rate independent velocity decay.
//!
//! Each tick multiplies every velocity by `0.5 ^ (dt / FRICTION_HALF_LIFE)`,
//! so the decay depends only on elapsed time. The exponent is split into an
//! integer part (repeated halving) and a fractional part, evaluated to
//! `FRAC_DEPTH` binary digits with the identity
//! `0.5^(f) == sqrt(0.5^(2f))`.

use vstd::prelude::*;
use crate::math::{
    abs_i, isqrt, lemma_sqrt_floor_is, lemma_sqrt_floor_monotonic, mul_div_i128, muldiv,
    sqrt_floor, SCALE,
};
use vstd::arithmetic::div_mod::{lemma_div_nonincreasing, lemma_div_pos_is_pos};

verus! {

/// Time for a velocity to halve in the absence of force: 0.040 seconds.
pub const FRICTION_HALF_LIFE: i64 = 40_000;

/// Binary digits of the fractional exponent that are evaluated.
pub const FRAC_DEPTH: u64 = 20;

/// Fixed-point square root: the raw value representing the square root of
/// the quantity that `x` represents.
pub open spec fn spec_sqrt_fp(x: int) -> int
    recommends
        x >= 0,
{
    sqrt_floor((x * SCALE) as nat) as int
}

/// `0.5` raised to the fraction `f / SCALE` (with `0 <= f < SCALE`),
/// evaluated to `k` binary digits of the exponent.
pub open spec fn spec_half_pow_frac(f: int, k: nat) -> int
    decreases k,
{
    if k == 0 {
        SCALE as int
    } else if 2 * f >= SCALE {
        spec_sqrt_fp(spec_half_pow_frac(2 * f - SCALE, (k - 1) as nat) / 2)
    } else {
        spec_sqrt_fp(spec_half_pow_frac(2 * f, (k - 1) as nat))
    }
}

/// `v` halved `k` times, rounding down each time.
pub open spec fn spec_halve_n(v: int, k: nat) -> int
    decreases k,
{
    if k == 0 {
        v
    } else {
        spec_halve_n(v, (k - 1) as nat) / 2
    }
}

/// The decay factor applied to velocities after `dt` raw time units:
/// `0.5 ^ (dt / FRICTION_HALF_LIFE)` in fixed point.
pub open spec fn spec_decay_factor(dt: int) -> int
    recommends
        dt >= 0,
{
    let x = muldiv(dt, SCALE as int, FRICTION_HALF_LIFE as int);
    spec_halve_n(
        spec_half_pow_frac(x % (SCALE as int), FRAC_DEPTH as nat),
        (x / (SCALE as int)) as nat,
    )
}

/// A fixed-point square root of a value at most one stays in `[0, 1]`,
/// and the square root of exactly one is one.
proof fn lemma_sqrt_fp_range(x: int)
    requires
        0 <= x <= SCALE,
    ensures
        0 <= spec_sqrt_fp(x) <= SCALE,
        x == SCALE ==> spec_sqrt_fp(x) == SCALE,
{
    let n = (x * SCALE) as nat;
    assert(x * SCALE >= 0);
    assert(x * SCALE <= SCALE * SCALE);
    assert((SCALE as int) * (SCALE as int) < ((SCALE as int) + 1) * ((SCALE as int) + 1))
        by (nonlinear_arith);
    lemma_sqrt_floor_monotonic(n, (SCALE * SCALE) as nat);
    lemma_sqrt_floor_is((SCALE * SCALE) as nat, SCALE as nat);
}

/// The fractional power stays in `[0, 1]`, and is exactly one when the
/// fraction is zero.
proof fn lemma_half_pow_frac_range(f: int, k: nat)
    requires
        0 <= f < SCALE,
    ensures
        0 <= spec_half_pow_frac(f, k) <= SCALE,
        f == 0 ==> spec_half_pow_frac(f, k) == SCALE,
    decreases k,
{
    if k == 0 {
    } else if 2 * f >= SCALE {
        lemma_half_pow_frac_range(2 * f - SCALE, (k - 1) as nat);
        let h = spec_half_pow_frac(2 * f - SCALE, (k - 1) as nat);
        assert(0 <= h / 2 <= SCALE);
        lemma_sqrt_fp_range(h / 2);
    } else {
        lemma_half_pow_frac_range(2 * f, (k - 1) as nat);
        let h = spec_half_pow_frac(2 * f, (k - 1) as nat);
        lemma_sqrt_fp_range(h);
    }
}

/// Repeated halving keeps a value within its original bounds.
proof fn lemma_halve_n_range(v: int, k: nat)
    requires
        0 <= v <= SCALE,
    ensures
        0 <= spec_halve_n(v, k) <= SCALE,
    decreases k,
{
    if k > 0 {
        lemma_halve_n_range(v, (k - 1) as nat);
    }
}

/// The decay factor is a fraction of one, whatever the elapsed time.
pub proof fn lemma_decay_factor_range(dt: int)
    requires
        dt >= 0,
    ensures
        0 <= spec_decay_factor(dt) <= SCALE,
{
    let x = muldiv(dt, SCALE as int, FRICTION_HALF_LIFE as int);
    lemma_div_pos_is_pos(abs_i(dt) * abs_i(SCALE as int), FRICTION_HALF_LIFE as int);
    assert(x >= 0);
    lemma_half_pow_frac_range(x % (SCALE as int), FRAC_DEPTH as nat);
    lemma_halve_n_range(
        spec_half_pow_frac(x % (SCALE as int), FRAC_DEPTH as nat),
        (x / (SCALE as int)) as nat,
    );
}

/// After exactly one half-life the decay factor is exactly one half.
pub proof fn lemma_half_life_decay()
    ensures
        spec_decay_factor(FRICTION_HALF_LIFE as int) == SCALE / 2,
{
    let x = muldiv(FRICTION_HALF_LIFE as int, SCALE as int, FRICTION_HALF_LIFE as int);
    vstd::arithmetic::div_mod::lemma_div_multiples_vanish(
        SCALE as int,
        FRICTION_HALF_LIFE as int,
    );
    assert(((FRICTION_HALF_LIFE as int) * (SCALE as int)) / (FRICTION_HALF_LIFE as int)
        == SCALE);
    assert(x == SCALE);
    lemma_half_pow_frac_range(0, FRAC_DEPTH as nat);
    assert(spec_half_pow_frac(0, FRAC_DEPTH as nat) == SCALE);
    assert(spec_halve_n(SCALE as int, 0nat) == SCALE);
    assert(spec_halve_n(SCALE as int, 1nat) == spec_halve_n(SCALE as int, 0nat) / 2);
}

/// Fixed-point square root of a value at most one.
fn sqrt_fp(x: u64) -> (r: u64)
    requires
        x <= 1_000_000,
    ensures
        r as int == spec_sqrt_fp(x as int),
        r <= 1_000_000,
{
    proof {
        vstd::arithmetic::mul::lemma_mul_upper_bound(
            x as int,
            1_000_000,
            SCALE as int,
            1_000_000,
        );
    }
    let n: u128 = (x as u128) * (SCALE as u128);
    let r = isqrt(n);
    proof {
        lemma_sqrt_fp_range(x as int);
    }
    r
}

/// The fractional part of the exponent, `0.5 ^ (f / SCALE)`.
fn half_pow_frac(f: u64, k: u64) -> (r: u64)
    requires
        f < 1_000_000,
    ensures
        r as int == spec_half_pow_frac(f as int, k as nat),
        r <= 1_000_000,
    decreases k,
{
    if k == 0 {
        1_000_000
    } else {
        let f2: u64 = 2 * f;
        if f2 >= 1_000_000 {
            let h = half_pow_frac(f2 - 1_000_000, k - 1);
            sqrt_fp(h / 2)
        } else {
            let h = half_pow_frac(f2, k - 1);
            sqrt_fp(h)
        }
    }
}

/// The decay factor for an elapsed time of `dt` raw units.
pub fn decay_factor(dt: i64) -> (d: i64)
    requires
        0 <= dt <= crate::sim::DT_LIMIT,
    ensures
        d as int == spec_decay_factor(dt as int),
        0 <= d <= SCALE,
{
    let x128 = mul_div_i128(dt as i128, SCALE as i128, FRICTION_HALF_LIFE as i128);
    proof {
        crate::math::lemma_abs_mul_le(
            dt as int,
            SCALE as int,
            crate::sim::DT_LIMIT as int,
            SCALE as int,
        );
        lemma_div_pos_is_pos(abs_i(dt as int) * abs_i(SCALE as int), FRICTION_HALF_LIFE as int);
        crate::math::lemma_muldiv_bound(
            dt as int,
            SCALE as int,
            FRICTION_HALF_LIFE as int,
            (crate::sim::DT_LIMIT as int) * (SCALE as int),
        );
    }
    let x: u64 = x128 as u64;
    let k: u64 = x / 1_000_000;
    let f: u64 = x % 1_000_000;
    let hp = half_pow_frac(f, FRAC_DEPTH);
    let ghost hp0 = spec_half_pow_frac(f as int, FRAC_DEPTH as nat);
    let mut v: u64 = hp;
    let mut i: u64 = 0;
    while i < k
        invariant
            i <= k,
            v as int == spec_halve_n(hp0, i as nat),
            v <= 1_000_000,
        decreases k - i,
    {
        proof {
            assert(spec_halve_n(hp0, (i + 1) as nat) == spec_halve_n(hp0, i as nat) / 2);
        }
        v = v / 2;
        i = i + 1;
    }
    v as i64
}

} // verus!
