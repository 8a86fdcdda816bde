//! Signed fixed-point arithmetic with `FIX_ONE` as the unit.
//!
//! A fixed-point value represents the real number `v / FIX_ONE`. Products are
//! rescaled with a truncating division (toward zero), matching the rounding a
//! hardware divide gives, so every operation here is an exact function of its
//! integer arguments.

use vstd::arithmetic::div_mod::{
    lemma_div_is_ordered, lemma_div_multiples_vanish, lemma_div_nonincreasing, lemma_div_of0,
    lemma_div_pos_is_pos, lemma_fundamental_div_mod, lemma_mod_division_less_than_divisor,
};
use vstd::prelude::*;

verus! {

/// The fixed-point unit: this many raw units stand for the real number one.
pub const FIX_ONE: i64 = 1048576;

/// Magnitude bound kept on every cosine/sine component; saturation at this
/// bound makes the rotation update total without touching it in normal use,
/// since a unit-norm pair stays far below it.
pub const FIX_BOUND: i64 = 2097152;

/// One full turn (two pi) in fixed-point units, truncated.
pub const TAU_FIX: i64 = 6588397;

/// Largest magnitude accepted by `mul_fix`: the product of two such values
/// still fits in an `i64`.
pub const MUL_MAX: i64 = 0x8000_0000;

/// Largest magnitude accepted by `div_fix` for the dividend.
pub const DIV_MAX: i64 = 0x4000_0000_0000_0000;

/// Division truncated toward zero, the rounding of a hardware divide.
pub open spec fn tdiv(x: int, d: int) -> int {
    if x >= 0 {
        x / d
    } else {
        -((-x) / d)
    }
}

/// Fixed-point product: the integer product rescaled by the unit, truncating
/// toward zero.
pub open spec fn fmul(a: int, b: int) -> int {
    tdiv(a * b, FIX_ONE as int)
}

/// Saturation into `[-FIX_BOUND, FIX_BOUND]`.
pub open spec fn clamp_fix(v: int) -> int {
    if v > FIX_BOUND as int {
        FIX_BOUND as int
    } else if v < -(FIX_BOUND as int) {
        -(FIX_BOUND as int)
    } else {
        v
    }
}

/// Truncating division toward zero never grows the magnitude of the bound:
/// `|x| <= b` gives `|tdiv(x, d)| <= b / d`.
pub proof fn lemma_tdiv_le(x: int, b: int, d: int)
    requires
        0 < d,
        -b <= x <= b,
        0 <= b,
    ensures
        -(b / d) <= tdiv(x, d) <= b / d,
{
    lemma_div_pos_is_pos(b, d);
    if x >= 0 {
        lemma_div_is_ordered(x, b, d);
        lemma_div_pos_is_pos(x, d);
    } else {
        lemma_div_is_ordered(-x, b, d);
        lemma_div_pos_is_pos(-x, d);
    }
}

/// A fixed-point product of values bounded by `m` and `n` is bounded by
/// `m * n / FIX_ONE`.
pub proof fn lemma_fmul_bound(a: int, b: int, m: int, n: int)
    requires
        -m <= a <= m,
        -n <= b <= n,
        0 <= m,
        0 <= n,
    ensures
        -((m * n) / (FIX_ONE as int)) <= fmul(a, b) <= (m * n) / (FIX_ONE as int),
{
    assert(-(m * n) <= a * b <= m * n) by (nonlinear_arith)
        requires
            -m <= a <= m,
            -n <= b <= n,
            0 <= m,
            0 <= n,
    ;
    assert(0 <= m * n) by (nonlinear_arith)
        requires
            0 <= m,
            0 <= n,
    ;
    lemma_tdiv_le(a * b, m * n, FIX_ONE as int);
}

/// Dividing an exact multiple truncates nothing: `tdiv(a * d, d) == a`.
pub proof fn lemma_tdiv_mul_cancel(a: int, d: int)
    requires
        0 < d,
    ensures
        tdiv(a * d, d) == a,
{
    if a >= 0 {
        lemma_div_multiples_vanish(a, d);
        assert(a * d == d * a) by (nonlinear_arith);
        assert(a * d >= 0) by (nonlinear_arith)
            requires
                0 <= a,
                0 < d,
        ;
    } else {
        lemma_div_multiples_vanish(-a, d);
        assert(-(a * d) == d * (-a)) by (nonlinear_arith);
        assert(a * d < 0) by (nonlinear_arith)
            requires
                a < 0,
                0 < d,
        ;
    }
}

/// Truncating division, characterized by its remainder: the quotient times the
/// divisor misses the dividend by less than the divisor, toward zero.
pub proof fn lemma_tdiv_rep(x: int, d: int)
    requires
        0 < d,
    ensures
        x >= 0 ==> 0 <= x - tdiv(x, d) * d < d,
        x < 0 ==> -d < x - tdiv(x, d) * d <= 0,
{
    if x >= 0 {
        lemma_fundamental_div_mod(x, d);
        lemma_mod_division_less_than_divisor(x, d);
        assert(d * (x / d) == (x / d) * d) by (nonlinear_arith);
    } else {
        lemma_fundamental_div_mod(-x, d);
        lemma_mod_division_less_than_divisor(-x, d);
        assert(d * ((-x) / d) == ((-x) / d) * d) by (nonlinear_arith);
        assert((-((-x) / d)) * d == -(((-x) / d) * d)) by (nonlinear_arith);
    }
}

/// Multiplying by zero gives zero.
pub proof fn lemma_fmul_zero(b: int)
    ensures
        fmul(0, b) == 0,
        fmul(b, 0) == 0,
{
    lemma_div_of0(FIX_ONE as int);
    assert(0 * b == 0) by (nonlinear_arith);
    assert(b * 0 == 0) by (nonlinear_arith);
}

/// Truncating division toward zero, computed on magnitudes so that only
/// unsigned machine division is needed.
pub fn div_fix(x: i64, d: i64) -> (r: i64)
    requires
        0 < d,
        -DIV_MAX <= x <= DIV_MAX,
    ensures
        r as int == tdiv(x as int, d as int),
        -DIV_MAX <= r <= DIV_MAX,
{
    if x >= 0 {
        let q: u64 = (x as u64) / (d as u64);
        proof {
            lemma_div_nonincreasing(x as int, d as int);
            lemma_div_pos_is_pos(x as int, d as int);
        }
        q as i64
    } else {
        let m: u64 = (-x) as u64;
        let q: u64 = m / (d as u64);
        proof {
            lemma_div_nonincreasing(m as int, d as int);
            lemma_div_pos_is_pos(m as int, d as int);
        }
        -(q as i64)
    }
}

/// Fixed-point multiplication: full product, then rescale by the unit.
pub fn mul_fix(a: i64, b: i64) -> (r: i64)
    requires
        -MUL_MAX <= a <= MUL_MAX,
        -MUL_MAX <= b <= MUL_MAX,
    ensures
        r as int == fmul(a as int, b as int),
{
    proof {
        assert(-DIV_MAX <= (a as int) * (b as int) <= DIV_MAX) by (nonlinear_arith)
            requires
                -MUL_MAX <= a <= MUL_MAX,
                -MUL_MAX <= b <= MUL_MAX,
        ;
    }
    let p: i64 = a * b;
    div_fix(p, FIX_ONE)
}

/// Saturation into `[-FIX_BOUND, FIX_BOUND]`.
pub fn clamp_fix_exec(v: i64) -> (r: i64)
    ensures
        r as int == clamp_fix(v as int),
        -FIX_BOUND <= r <= FIX_BOUND,
{
    if v > FIX_BOUND {
        FIX_BOUND
    } else if v < -FIX_BOUND {
        -FIX_BOUND
    } else {
        v
    }
}

} // verus!
