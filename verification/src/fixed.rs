//! Fixed-point arithmetic and the two financial primitives: compound
//! growth and present value (principal for a future payment).
//!
//! A quantity is an `i64` counting micro-units: `SCALE` micro-units are
//! one whole unit.  A rate of `0.04` per period is the value `40_000`.
//! Multiplication and division round toward zero and saturate at the
//! `i64` range, exactly as the spec functions below state.

use vstd::prelude::*;

verus! {

/// One whole unit in micro-units.
pub const SCALE: i64 = 1_000_000;

/// Clamps a mathematical integer into the `i64` range.
pub open spec fn clamp64(x: int) -> int {
    if x > i64::MAX {
        i64::MAX as int
    } else if x < i64::MIN {
        i64::MIN as int
    } else {
        x
    }
}

/// Division truncating toward zero (machine semantics), for a positive
/// divisor.
pub open spec fn tdiv(a: int, d: int) -> int
    recommends
        d > 0,
{
    if a >= 0 {
        a / d
    } else {
        -((-a) / d)
    }
}

/// `v * f / d`, truncated toward zero and clamped to the `i64` range.
pub open spec fn mul_div_spec(v: int, f: int, d: int) -> int
    recommends
        d > 0,
{
    clamp64(tdiv(v * f, d))
}

/// One compounding step: multiply by a growth factor of `f` micro-units.
pub open spec fn grow_spec(v: int, f: int) -> int {
    mul_div_spec(v, f, SCALE as int)
}

/// One discounting step: divide by a growth factor of `f` micro-units.
pub open spec fn shrink_spec(v: int, f: int) -> int
    recommends
        f > 0,
{
    mul_div_spec(v, SCALE as int, f)
}

/// Fixed-point compound growth: `v` grown by `rate` per period over `n`
/// whole periods, one rounding step per period.
pub open spec fn compound_spec(v: int, rate: int, n: nat) -> int
    decreases n,
{
    if n == 0 {
        v
    } else {
        grow_spec(compound_spec(v, rate, (n - 1) as nat), SCALE + rate)
    }
}

/// Fixed-point present value: `v` discounted by `rate` per period over
/// `n` whole periods, one rounding step per period.
pub open spec fn principal_spec(v: int, rate: int, n: nat) -> int
    decreases n,
{
    if n == 0 {
        v
    } else {
        shrink_spec(principal_spec(v, rate, (n - 1) as nat), SCALE + rate)
    }
}

/// Saturating addition on the `i64` range.
pub open spec fn sat_add_spec(a: int, b: int) -> int {
    clamp64(a + b)
}

/// Saturating subtraction on the `i64` range.
pub open spec fn sat_sub_spec(a: int, b: int) -> int {
    clamp64(a - b)
}

pub open spec fn min_int(a: int, b: int) -> int {
    if a < b {
        a
    } else {
        b
    }
}

pub open spec fn max_int(a: int, b: int) -> int {
    if a > b {
        a
    } else {
        b
    }
}

pub(crate) fn tdiv128(a: i128, d: i128) -> (r: i128)
    requires
        d > 0,
        a > i128::MIN,
    ensures
        r == tdiv(a as int, d as int),
        a >= 0 ==> 0 <= r <= a,
        a < 0 ==> a <= r <= 0,
{
    if a >= 0 {
        let q: u128 = (a as u128) / (d as u128);
        q as i128
    } else {
        let q: u128 = ((-a) as u128) / (d as u128);
        -(q as i128)
    }
}

pub(crate) fn clamp_to_i64(x: i128) -> (r: i64)
    ensures
        r as int == clamp64(x as int),
{
    if x > i64::MAX as i128 {
        i64::MAX
    } else if x < i64::MIN as i128 {
        i64::MIN
    } else {
        x as i64
    }
}

/// Saturating addition of two fixed-point quantities.
pub fn sat_add64(a: i64, b: i64) -> (r: i64)
    ensures
        r as int == sat_add_spec(a as int, b as int),
{
    let s: i128 = a as i128 + b as i128;
    clamp_to_i64(s)
}

/// Saturating subtraction of two fixed-point quantities.
pub fn sat_sub64(a: i64, b: i64) -> (r: i64)
    ensures
        r as int == sat_sub_spec(a as int, b as int),
{
    let s: i128 = a as i128 - b as i128;
    clamp_to_i64(s)
}

/// `v * f / d` with the product taken exactly in 128 bits.
pub fn mul_div64(v: i64, f: i64, d: i64) -> (r: i64)
    requires
        d > 0,
    ensures
        r as int == mul_div_spec(v as int, f as int, d as int),
{
    proof {
        assert((v as int) * (f as int) > i128::MIN && (v as int) * (f as int) <= i128::MAX)
            by (nonlinear_arith)
            requires
                i64::MIN <= v <= i64::MAX,
                i64::MIN <= f <= i64::MAX,
        ;
    }
    let p: i128 = (v as i128) * (f as i128);
    let q: i128 = tdiv128(p, d as i128);
    clamp_to_i64(q)
}

fn grow64(v: i64, rate: i64) -> (r: i64)
    ensures
        r as int == grow_spec(v as int, SCALE + rate),
{
    let f: i128 = SCALE as i128 + rate as i128;
    proof {
        assert((v as int) * (f as int) > i128::MIN && (v as int) * (f as int) <= i128::MAX)
            by (nonlinear_arith)
            requires
                i64::MIN <= v <= i64::MAX,
                i64::MIN + SCALE <= f <= i64::MAX as int + SCALE,
        ;
    }
    let p: i128 = (v as i128) * f;
    let q: i128 = tdiv128(p, SCALE as i128);
    clamp_to_i64(q)
}

fn shrink64(v: i64, rate: i64) -> (r: i64)
    requires
        rate > -SCALE,
    ensures
        r as int == shrink_spec(v as int, SCALE + rate),
{
    let f: i128 = SCALE as i128 + rate as i128;
    proof {
        assert((v as int) * (SCALE as int) > i128::MIN && (v as int) * (SCALE as int)
            <= i128::MAX) by (nonlinear_arith)
            requires
                i64::MIN <= v <= i64::MAX,
        ;
    }
    let p: i128 = (v as i128) * (SCALE as i128);
    let q: i128 = tdiv128(p, f);
    clamp_to_i64(q)
}

/// Division of a fixed-point quantity by a positive count, truncating
/// toward zero.
pub fn tdiv64_by(a: i64, d: u64) -> (r: i64)
    requires
        d >= 1,
    ensures
        r as int == tdiv(a as int, d as int),
{
    let q: i128 = tdiv128(a as i128, d as i128);
    q as i64
}

/// Compound growth: `initial` grown by `rate` per period over `period`
/// whole periods.  A zero rate returns `initial` unchanged.
pub fn calculate_compound(initial: i64, rate: i64, period: usize) -> (r: i64)
    ensures
        r as int == compound_spec(initial as int, rate as int, period as nat),
{
    let mut v: i64 = initial;
    let mut i: usize = 0;
    while i < period
        invariant
            i <= period,
            v as int == compound_spec(initial as int, rate as int, i as nat),
        decreases period - i,
    {
        v = grow64(v, rate);
        i = i + 1;
    }
    v
}

/// Present value of a payment of `required_value` due `period` periods
/// from now, at `rate` per period.  Defined for rates above minus one
/// whole unit.
pub fn calculate_principal(required_value: i64, rate: i64, period: usize) -> (r: i64)
    requires
        rate > -SCALE,
    ensures
        r as int == principal_spec(required_value as int, rate as int, period as nat),
{
    let mut v: i64 = required_value;
    let mut i: usize = 0;
    while i < period
        invariant
            i <= period,
            rate > -SCALE,
            v as int == principal_spec(required_value as int, rate as int, i as nat),
        decreases period - i,
    {
        v = shrink64(v, rate);
        i = i + 1;
    }
    v
}

/// Law: a zero rate makes compounding the identity, for every value in
/// range and every number of periods.
pub proof fn lemma_compound_zero_rate(x: i64, n: nat)
    ensures
        compound_spec(x as int, 0, n) == x as int,
    decreases n,
{
    if n > 0 {
        lemma_compound_zero_rate(x, (n - 1) as nat);
        assert(tdiv(x as int * (SCALE as int), SCALE as int) == x as int) by (nonlinear_arith)
            requires
                i64::MIN <= x <= i64::MAX,
        ;
    }
}

/// Law: a zero rate makes discounting the identity, for every value in
/// range and every number of periods.
pub proof fn lemma_principal_zero_rate(x: i64, n: nat)
    ensures
        principal_spec(x as int, 0, n) == x as int,
    decreases n,
{
    if n > 0 {
        lemma_principal_zero_rate(x, (n - 1) as nat);
        assert(tdiv(x as int * (SCALE as int), SCALE as int) == x as int) by (nonlinear_arith)
            requires
                i64::MIN <= x <= i64::MAX,
        ;
    }
}

/// Law: discounting inverts compounding where no rounding occurs: at a
/// zero rate, or over zero periods.  At other rates the fixed-point
/// rounding of each step loses the low digits, so the round trip is not
/// exact there.
pub proof fn lemma_principal_compound_round_trip(p0: i64, rate: i64, n: nat)
    requires
        rate == 0 || n == 0,
    ensures
        principal_spec(compound_spec(p0 as int, rate as int, n), rate as int, n) == p0 as int,
{
    if rate == 0 {
        lemma_compound_zero_rate(p0, n);
        lemma_principal_zero_rate(p0, n);
    }
}

proof fn lemma_grow_le_scaled(v: int, f: int)
    requires
        v >= 0,
        f >= 0,
    ensures
        grow_spec(v, f) >= 0,
        grow_spec(v, f) * SCALE <= v * f,
{
    vstd::arithmetic::mul::lemma_mul_nonnegative(v, f);
    let q = (v * f) / (SCALE as int);
    vstd::arithmetic::div_mod::lemma_fundamental_div_mod(v * f, SCALE as int);
    vstd::arithmetic::div_mod::lemma_mod_bound(v * f, SCALE as int);
    assert(q * SCALE <= v * f);
    if q > i64::MAX {
        vstd::arithmetic::mul::lemma_mul_inequality(i64::MAX as int, q, SCALE as int);
    }
}

proof fn lemma_shrink_grow_cancel(y: int, f: int)
    requires
        y >= 0,
        f >= SCALE,
    ensures
        shrink_spec(grow_spec(y, f), f) <= y,
{
    lemma_grow_le_scaled(y, f);
    let g = grow_spec(y, f);
    vstd::arithmetic::mul::lemma_mul_nonnegative(g, SCALE as int);
    vstd::arithmetic::div_mod::lemma_div_is_ordered(g * SCALE, y * f, f);
    vstd::arithmetic::div_mod::lemma_div_multiples_vanish(y, f);
    assert(f * y == y * f) by (nonlinear_arith);
    assert((g * SCALE) / f <= y);
}

proof fn lemma_shrink_monotone(v1: int, v2: int, f: int)
    requires
        0 <= v1 <= v2,
        f > 0,
    ensures
        shrink_spec(v1, f) <= shrink_spec(v2, f),
{
    vstd::arithmetic::mul::lemma_mul_inequality(v1, v2, SCALE as int);
    vstd::arithmetic::mul::lemma_mul_nonnegative(v1, SCALE as int);
    vstd::arithmetic::div_mod::lemma_div_is_ordered(v1 * SCALE, v2 * SCALE, f);
}

proof fn lemma_compound_shift(v: int, rate: int, n: nat)
    requires
        n >= 1,
    ensures
        compound_spec(v, rate, n) == compound_spec(grow_spec(v, SCALE + rate), rate, (n - 1) as nat),
    decreases n,
{
    let w = grow_spec(v, SCALE + rate);
    if n == 1 {
        assert(compound_spec(v, rate, 1) == grow_spec(compound_spec(v, rate, 0), SCALE + rate));
        assert(compound_spec(w, rate, 0) == w);
    } else {
        lemma_compound_shift(v, rate, (n - 1) as nat);
        assert(compound_spec(v, rate, n) == grow_spec(
            compound_spec(v, rate, (n - 1) as nat),
            SCALE + rate,
        ));
        assert(compound_spec(w, rate, (n - 1) as nat) == grow_spec(
            compound_spec(w, rate, (n - 2) as nat),
            SCALE + rate,
        ));
    }
}

/// Law: at a non-negative rate, discounting what compounding produced
/// never overstates the starting principal — every rounding step rounds
/// toward zero, so the round trip can only lose the low digits, never
/// invent value.
pub proof fn lemma_principal_compound_round_trip_bound(p0: int, rate: int, n: nat)
    requires
        p0 >= 0,
        rate >= 0,
    ensures
        principal_spec(compound_spec(p0, rate, n), rate, n) <= p0,
    decreases n,
{
    if n > 0 {
        let f = SCALE + rate;
        let y1 = grow_spec(p0, f);
        lemma_grow_le_scaled(p0, f);
        lemma_compound_shift(p0, rate, n);
        lemma_principal_compound_round_trip_bound(y1, rate, (n - 1) as nat);
        let v = compound_spec(p0, rate, n);
        lemma_compound_nonneg(p0, rate, n);
        lemma_principal_nonneg(v, rate, (n - 1) as nat);
        lemma_shrink_monotone(principal_spec(v, rate, (n - 1) as nat), y1, f);
        lemma_shrink_grow_cancel(p0, f);
    }
}

/// Compounding keeps a non-negative value non-negative whenever the
/// growth factor is non-negative.
pub proof fn lemma_compound_nonneg(v: int, rate: int, n: nat)
    requires
        v >= 0,
        rate >= -SCALE,
    ensures
        compound_spec(v, rate, n) >= 0,
    decreases n,
{
    if n > 0 {
        lemma_compound_nonneg(v, rate, (n - 1) as nat);
        let prev = compound_spec(v, rate, (n - 1) as nat);
        assert(prev * (SCALE + rate) >= 0) by (nonlinear_arith)
            requires
                prev >= 0,
                SCALE + rate >= 0,
        ;
    }
}

/// Discounting keeps a non-negative value non-negative whenever the
/// growth factor is positive.
pub proof fn lemma_principal_nonneg(v: int, rate: int, n: nat)
    requires
        v >= 0,
        rate > -SCALE,
    ensures
        principal_spec(v, rate, n) >= 0,
    decreases n,
{
    if n > 0 {
        lemma_principal_nonneg(v, rate, (n - 1) as nat);
        let prev = principal_spec(v, rate, (n - 1) as nat);
        assert(prev * (SCALE as int) >= 0) by (nonlinear_arith)
            requires
                prev >= 0,
        ;
    }
}

} // verus!
