//! Fixed-point scalar arithmetic.
//!
//! A real quantity `v` is represented by the integer `v * SCALE`, rounded
//! toward zero. All simulation arithmetic is built from three primitives:
//! a combined multiply-divide (`muldiv`), a floor square root
//! (`sqrt_floor`), and symmetric clamping (`clamp`).

use vstd::prelude::*;
use vstd::arithmetic::div_mod::{
    lemma_div_is_ordered, lemma_div_multiples_vanish, lemma_div_nonincreasing,
    lemma_div_pos_is_pos,
};
use vstd::arithmetic::mul::{lemma_mul_inequality, lemma_mul_nonnegative, lemma_mul_upper_bound};

verus! {

/// Raw units per 1.0: one unit of length, one second, or one coefficient
/// point is `SCALE` raw steps.
pub const SCALE: i64 = 1_000_000;

/// Magnitude of an integer.
pub open spec fn abs_i(a: int) -> int {
    if a >= 0 {
        a
    } else {
        -a
    }
}

/// `a * b / c` computed exactly and then rounded toward zero
/// (the rounding of every scaled multiplication and division here).
pub open spec fn muldiv(a: int, b: int, c: int) -> int
    recommends
        c > 0,
{
    if (a >= 0) == (b >= 0) {
        (abs_i(a) * abs_i(b)) / c
    } else {
        -((abs_i(a) * abs_i(b)) / c)
    }
}

/// Product of two fixed-point scalars.
pub open spec fn fmul(a: int, b: int) -> int {
    muldiv(a, b, SCALE as int)
}

/// `x` confined to `[-lim, lim]`.
pub open spec fn clamp(x: int, lim: int) -> int {
    if x > lim {
        lim
    } else if x < -lim {
        -lim
    } else {
        x
    }
}

/// Floor of the square root of a natural number.
pub open spec fn sqrt_floor(n: nat) -> nat
    decreases n,
{
    if n == 0 {
        0
    } else {
        let s = sqrt_floor((n - 1) as nat);
        if (s + 1) * (s + 1) <= n {
            s + 1
        } else {
            s
        }
    }
}

/// `sqrt_floor(n)` is squeezed between the two neighbouring squares.
pub proof fn lemma_sqrt_floor_bounds(n: nat)
    ensures
        sqrt_floor(n) * sqrt_floor(n) <= n,
        n < (sqrt_floor(n) + 1) * (sqrt_floor(n) + 1),
    decreases n,
{
    if n > 0 {
        lemma_sqrt_floor_bounds((n - 1) as nat);
        let s = sqrt_floor((n - 1) as nat);
        if (s + 1) * (s + 1) <= n {
            assert(sqrt_floor(n) == s + 1);
            assert(n == (s + 1) * (s + 1));
            assert((s + 2) * (s + 2) > (s + 1) * (s + 1)) by (nonlinear_arith);
            assert(n < (sqrt_floor(n) + 1) * (sqrt_floor(n) + 1));
        } else {
            assert(sqrt_floor(n) == s);
            assert(n < (s + 1) * (s + 1));
            assert(n < (sqrt_floor(n) + 1) * (sqrt_floor(n) + 1));
        }
    } else {
        assert(sqrt_floor(0) == 0);
        assert(n < (sqrt_floor(n) + 1) * (sqrt_floor(n) + 1)) by (nonlinear_arith)
            requires
                n == 0,
                sqrt_floor(n) == 0,
        ;
    }
}

/// The squeeze characterises `sqrt_floor` uniquely.
pub proof fn lemma_sqrt_floor_is(n: nat, s: nat)
    requires
        s * s <= n,
        n < (s + 1) * (s + 1),
    ensures
        sqrt_floor(n) == s,
{
    lemma_sqrt_floor_bounds(n);
    let t = sqrt_floor(n);
    if t < s {
        assert((t + 1) * (t + 1) <= s * s) by (nonlinear_arith)
            requires
                t + 1 <= s,
        ;
        assert(false);
    }
    if t > s {
        assert((s + 1) * (s + 1) <= t * t) by (nonlinear_arith)
            requires
                s + 1 <= t,
        ;
        assert(false);
    }
}

/// `sqrt_floor` is monotone.
pub proof fn lemma_sqrt_floor_monotonic(a: nat, b: nat)
    requires
        a <= b,
    ensures
        sqrt_floor(a) <= sqrt_floor(b),
{
    lemma_sqrt_floor_bounds(a);
    lemma_sqrt_floor_bounds(b);
    let x = sqrt_floor(a);
    let y = sqrt_floor(b);
    if x > y {
        assert((y + 1) * (y + 1) <= x * x) by (nonlinear_arith)
            requires
                y + 1 <= x,
        ;
        assert(false);
    }
}

/// When the second factor is at most the divisor, the magnitude of
/// `muldiv(a, b, c)` is at most the magnitude of `a`.
pub proof fn lemma_muldiv_magnitude(a: int, b: int, c: int)
    requires
        c > 0,
        abs_i(b) <= c,
    ensures
        abs_i(muldiv(a, b, c)) <= abs_i(a),
{
    let ma = abs_i(a);
    let mb = abs_i(b);
    lemma_mul_inequality(mb, c, ma);
    assert(mb * ma <= c * ma);
    assert(ma * mb == mb * ma) by (nonlinear_arith);
    assert(ma * c == c * ma) by (nonlinear_arith);
    lemma_div_is_ordered(ma * mb, ma * c, c);
    lemma_div_multiples_vanish(ma, c);
    assert((c * ma) / c == ma);
}

/// A bound on the product of the magnitudes bounds `muldiv` after division.
pub proof fn lemma_muldiv_bound(a: int, b: int, c: int, m: int)
    requires
        c > 0,
        abs_i(a) * abs_i(b) <= m,
    ensures
        abs_i(muldiv(a, b, c)) <= m / c,
{
    let ma = abs_i(a);
    let mb = abs_i(b);
    let p = ma * mb;
    lemma_mul_nonnegative(ma, mb);
    lemma_div_pos_is_pos(p, c);
    lemma_div_is_ordered(p, m, c);
}

/// Multiplying by an exact multiple of the divisor loses nothing to
/// rounding: `|muldiv(a, k * c, c)| == |a| * k`.
pub proof fn lemma_muldiv_exact_factor(a: int, k: int, c: int)
    requires
        c > 0,
        k >= 0,
    ensures
        abs_i(muldiv(a, k * c, c)) == abs_i(a) * k,
{
    let ma = abs_i(a);
    lemma_mul_nonnegative(k, c);
    assert(abs_i(k * c) == k * c);
    assert(ma * (k * c) == (ma * k) * c) by (nonlinear_arith);
    assert((ma * k) * c == c * (ma * k)) by (nonlinear_arith);
    lemma_div_multiples_vanish(ma * k, c);
    assert((c * (ma * k)) / c == ma * k);
}

/// Products of bounded magnitudes are bounded.
pub proof fn lemma_abs_mul_le(a: int, b: int, am: int, bm: int)
    requires
        abs_i(a) <= am,
        abs_i(b) <= bm,
    ensures
        abs_i(a) * abs_i(b) <= am * bm,
{
    lemma_mul_upper_bound(abs_i(a), am, abs_i(b), bm);
}

/// Magnitude of an `i128`, as an unsigned value.
fn abs_u128(a: i128) -> (m: u128)
    ensures
        m as int == abs_i(a as int),
{
    if a >= 0 {
        a as u128
    } else {
        let p: i128 = -(a + 1);
        (p as u128) + 1
    }
}

/// `muldiv` on machine integers. The product of the magnitudes must fit.
pub fn mul_div_i128(a: i128, b: i128, c: i128) -> (r: i128)
    requires
        c > 0,
        abs_i(a as int) * abs_i(b as int) <= i128::MAX as int,
    ensures
        r as int == muldiv(a as int, b as int, c as int),
        abs_i(r as int) == (abs_i(a as int) * abs_i(b as int)) / (c as int),
{
    let ma: u128 = abs_u128(a);
    let mb: u128 = abs_u128(b);
    proof {
        assert(ma as int * mb as int <= i128::MAX as int);
    }
    let q: u128 = (ma * mb) / (c as u128);
    proof {
        assert(ma as int * mb as int >= 0) by (nonlinear_arith);
        lemma_div_nonincreasing(ma as int * mb as int, c as int);
        lemma_div_pos_is_pos(ma as int * mb as int, c as int);
        assert(q <= i128::MAX as u128);
    }
    if (a >= 0) == (b >= 0) {
        q as i128
    } else {
        -(q as i128)
    }
}

/// Clamp an intermediate value into `[-lim, lim]` and narrow it.
pub fn clamp_to(x: i128, lim: i64) -> (r: i64)
    requires
        lim > 0,
    ensures
        r as int == clamp(x as int, lim as int),
{
    if x > lim as i128 {
        lim
    } else if x < -(lim as i128) {
        -lim
    } else {
        x as i64
    }
}

/// Floor square root of a `u128`.
pub fn isqrt(n: u128) -> (r: u64)
    ensures
        r as nat == sqrt_floor(n as nat),
        (r as int) * (r as int) <= n as int,
        (n as int) < ((r as int) + 1) * ((r as int) + 1),
{
    let mut lo: u64 = 0;
    let mut hi: u64 = u64::MAX;
    proof {
        assert((n as int) < ((hi as int) + 1) * ((hi as int) + 1));
    }
    while lo < hi
        invariant
            lo <= hi,
            (lo as int) * (lo as int) <= n as int,
            (n as int) < ((hi as int) + 1) * ((hi as int) + 1),
        decreases hi - lo,
    {
        let mid: u64 = ((lo as u128 + hi as u128 + 1) / 2) as u64;
        proof {
            lemma_mul_upper_bound(mid as int, u64::MAX as int, mid as int, u64::MAX as int);
        }
        let msq: u128 = (mid as u128) * (mid as u128);
        if msq <= n {
            lo = mid;
        } else {
            hi = mid - 1;
        }
    }
    proof {
        lemma_sqrt_floor_is(n as nat, lo as nat);
    }
    lo
}

} // verus!
