//! Saturating fixed-point arithmetic on micro-unit values.
//!
//! Every helper states its result exactly, with saturation at the `i64`
//! bounds instead of a precondition on the operands' sizes, so callers never
//! carry overflow obligations through the aggregation pipeline.
use vstd::prelude::*;
use crate::FX_SCALE;

verus! {

/// `a + b` clamped into the `i64` range, as a mathematical function.
pub open spec fn spec_sat_add(a: int, b: int) -> int {
    if a + b > i64::MAX as int {
        i64::MAX as int
    } else if a + b < i64::MIN as int {
        i64::MIN as int
    } else {
        a + b
    }
}

/// `v` clamped into the `i64` range.
pub open spec fn spec_clamp(v: int) -> int {
    if v > i64::MAX as int {
        i64::MAX as int
    } else if v < i64::MIN as int {
        i64::MIN as int
    } else {
        v
    }
}

/// Saturating addition.
pub fn sat_add(a: i64, b: i64) -> (r: i64)
    ensures
        r as int == spec_sat_add(a as int, b as int),
{
    let wide: i128 = a as i128 + b as i128;
    if wide > i64::MAX as i128 {
        i64::MAX
    } else if wide < i64::MIN as i128 {
        i64::MIN
    } else {
        wide as i64
    }
}

/// Saturating subtraction.
pub fn sat_sub(a: i64, b: i64) -> (r: i64)
    ensures
        r as int == spec_clamp(a as int - b as int),
{
    let wide: i128 = a as i128 - b as i128;
    if wide > i64::MAX as i128 {
        i64::MAX
    } else if wide < i64::MIN as i128 {
        i64::MIN
    } else {
        wide as i64
    }
}

/// The fixed-point product `a * b / FX_SCALE` of two non-negative values,
/// clamped at `i64::MAX`.
pub open spec fn spec_fx_mul(a: int, b: int) -> int {
    spec_clamp((a * b) / (FX_SCALE as int))
}

/// Saturating fixed-point multiplication of non-negative values.
pub fn fx_mul(a: i64, b: i64) -> (r: i64)
    requires
        a >= 0,
        b >= 0,
    ensures
        r as int == spec_fx_mul(a as int, b as int),
        r >= 0,
{
    proof {
        assert(0 <= a as int * b as int <= i64::MAX as int * i64::MAX as int) by (nonlinear_arith)
            requires 0 <= a <= i64::MAX && 0 <= b <= i64::MAX;
        assert(0 <= (a as int * b as int) / (FX_SCALE as int) <= a as int * b as int) by (nonlinear_arith)
            requires a as int * b as int >= 0;
    }
    let wide: i128 = (a as i128 * b as i128) / (FX_SCALE as i128);
    if wide > i64::MAX as i128 {
        i64::MAX
    } else {
        wide as i64
    }
}

/// The fixed-point quotient `num * FX_SCALE / den` for `0 <= num`,
/// `1 <= den`, clamped at `i64::MAX`.
pub open spec fn spec_fx_div(num: int, den: int) -> int {
    spec_clamp((num * FX_SCALE as int) / den)
}

/// Saturating fixed-point division of a non-negative value by a positive one.
pub fn fx_div(num: i64, den: i64) -> (r: i64)
    requires
        num >= 0,
        den >= 1,
    ensures
        r as int == spec_fx_div(num as int, den as int),
        r >= 0,
{
    proof {
        assert(0 <= num as int * FX_SCALE as int <= i64::MAX as int * FX_SCALE as int) by (nonlinear_arith)
            requires 0 <= num <= i64::MAX;
        assert(0 <= (num as int * FX_SCALE as int) / (den as int) <= num as int * FX_SCALE as int) by (nonlinear_arith)
            requires num as int * FX_SCALE as int >= 0 && den >= 1;
    }
    let wide: i128 = (num as i128 * FX_SCALE as i128) / (den as i128);
    if wide > i64::MAX as i128 {
        i64::MAX
    } else {
        wide as i64
    }
}

/// A ratio `num / den` of non-negative values with `num <= den`, in
/// fixed-point: always lands in `[0, FX_SCALE]`.
pub fn fx_ratio(num: i64, den: i64) -> (r: i64)
    requires
        0 <= num <= den,
        den >= 1,
    ensures
        r as int == (num * FX_SCALE as int) / (den as int),
        0 <= r <= FX_SCALE,
{
    proof {
        assert((num * FX_SCALE as int) / (den as int) <= FX_SCALE as int
            && (num * FX_SCALE as int) / (den as int) >= 0) by (nonlinear_arith)
            requires 0 <= num <= den && den >= 1;
    }
    fx_div(num, den)
}

/// Division of equal operands is exactly one: the base fact behind the
/// component-minimal role's correction factor being exactly `1.0`.
pub proof fn lemma_fx_div_self(v: int)
    requires
        v >= 1,
    ensures
        spec_fx_div(v, v) == FX_SCALE as int,
{
    assert((v * FX_SCALE as int) / v == FX_SCALE as int) by (nonlinear_arith)
        requires v >= 1;
}

/// Dividing a larger numerator by the same positive denominator cannot give
/// less: with `num >= den` the quotient is at least `1.0`.
pub proof fn lemma_fx_div_ge_one(num: int, den: int)
    requires
        1 <= den <= num,
    ensures
        spec_fx_div(num, den) >= FX_SCALE as int,
{
    assert((num * FX_SCALE as int) / den >= FX_SCALE as int) by (nonlinear_arith)
        requires 1 <= den <= num;
}

/// Monotonicity of the ratio in its numerator.
pub proof fn lemma_fx_div_monotonic(num1: int, num2: int, den: int)
    requires
        0 <= num1 <= num2,
        den >= 1,
    ensures
        spec_fx_div(num1, den) <= spec_fx_div(num2, den),
{
    assert((num1 * FX_SCALE as int) / den <= (num2 * FX_SCALE as int) / den) by (nonlinear_arith)
        requires 0 <= num1 <= num2 && den >= 1;
}

} // verus!
