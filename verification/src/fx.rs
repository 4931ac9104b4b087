//! Fixed-point scalar arithmetic.
//!
//! Every scalar quantity of the engine (positions, velocities, radii,
//! impulses) is an `i64` holding a fixed-point number with `FX_ONE` as the
//! unit. All stored quantities are kept inside `[-FX_MAX, FX_MAX]`; the
//! arithmetic here saturates at that range instead of overflowing, so a step
//! can always complete and merely degrades in accuracy under numerical
//! stress.

use vstd::prelude::*;

verus! {

/// The fixed-point unit: 1.0 in engine units.
pub const FX_ONE: i64 = 1024;

/// Largest magnitude any stored scalar may have.
pub const FX_MAX: i64 = 2_000_000_000;

/// A scalar is in range when its magnitude is at most `FX_MAX`.
pub open spec fn fits(x: int) -> bool {
    -(FX_MAX as int) <= x <= FX_MAX as int
}

/// Saturation to the representable range.
pub open spec fn clip(x: int) -> int {
    if x > FX_MAX as int {
        FX_MAX as int
    } else if x < -(FX_MAX as int) {
        -(FX_MAX as int)
    } else {
        x
    }
}

/// Truncating division (round toward zero), the rounding of the engine.
/// Only used with a positive divisor.
pub open spec fn tdiv(a: int, b: int) -> int {
    if a >= 0 {
        a / b
    } else {
        -((-a) / b)
    }
}

/// The fixed-point product of two scalars, before saturation.
pub open spec fn fx_mul_spec(a: int, b: int) -> int {
    tdiv(a * b, FX_ONE as int)
}

/// The fixed-point quotient of two scalars, before saturation.
pub open spec fn fx_div_spec(a: int, b: int) -> int {
    tdiv(a * FX_ONE, b)
}

/// Saturating addition.
pub fn fx_add(a: i64, b: i64) -> (r: i64)
    requires
        fits(a as int),
        fits(b as int),
    ensures
        r as int == clip(a + b),
        fits(r as int),
{
    let s: i64 = a + b;
    if s > FX_MAX {
        FX_MAX
    } else if s < -FX_MAX {
        -FX_MAX
    } else {
        s
    }
}

/// Saturating subtraction.
pub fn fx_sub(a: i64, b: i64) -> (r: i64)
    requires
        fits(a as int),
        fits(b as int),
    ensures
        r as int == clip(a - b),
        fits(r as int),
{
    let s: i64 = a - b;
    if s > FX_MAX {
        FX_MAX
    } else if s < -FX_MAX {
        -FX_MAX
    } else {
        s
    }
}

/// Saturation of an already-computed wide value.
pub fn fx_clip(x: i64) -> (r: i64)
    ensures
        r as int == clip(x as int),
        fits(r as int),
{
    if x > FX_MAX {
        FX_MAX
    } else if x < -FX_MAX {
        -FX_MAX
    } else {
        x
    }
}

/// Saturating fixed-point multiplication.
pub fn fx_mul(a: i64, b: i64) -> (r: i64)
    requires
        fits(a as int),
        fits(b as int),
    ensures
        r as int == clip(fx_mul_spec(a as int, b as int)),
        fits(r as int),
{
    proof {
        assert((a as int) * (b as int) <= 4_000_000_000_000_000_000
            && (a as int) * (b as int) >= -4_000_000_000_000_000_000) by (nonlinear_arith)
            requires
                fits(a as int),
                fits(b as int),
        ;
    }
    let p: i64 = a * b;
    let q: i64 = div_trunc(p, FX_ONE);
    fx_clip(q)
}

/// Saturating fixed-point division by a nonzero scalar.
pub fn fx_div(a: i64, b: i64) -> (r: i64)
    requires
        fits(a as int),
        fits(b as int),
        b != 0,
    ensures
        b > 0 ==> r as int == clip(fx_div_spec(a as int, b as int)),
        b < 0 ==> r as int == clip(-fx_div_spec(a as int, -(b as int))),
        fits(r as int),
{
    let n: i64 = a * FX_ONE;
    if b > 0 {
        let q: i64 = div_trunc(n, b);
        fx_clip(q)
    } else {
        let q: i64 = div_trunc(n, -b);
        proof {
            assert(-(q as int) == -fx_div_spec(a as int, -(b as int)));
        }
        fx_clip(-q)
    }
}

/// Truncating division of an in-range product by a positive divisor.
fn div_trunc(a: i64, b: i64) -> (r: i64)
    requires
        b > 0,
        a > i64::MIN,
    ensures
        r as int == tdiv(a as int, b as int),
        a >= 0 ==> 0 <= r <= a,
        a < 0 ==> a <= r <= 0,
{
    proof {
        if a >= 0 {
            vstd::arithmetic::div_mod::lemma_div_is_ordered_by_denominator(a as int, 1, b as int);
            vstd::arithmetic::div_mod::lemma_div_pos_is_pos(a as int, b as int);
        } else {
            vstd::arithmetic::div_mod::lemma_div_is_ordered_by_denominator(-(a as int), 1, b as int);
            vstd::arithmetic::div_mod::lemma_div_pos_is_pos(-(a as int), b as int);
        }
    }
    if a >= 0 {
        a / b
    } else {
        -((-a) / b)
    }
}

} // verus!
