//! Fixed-point scalar domain.
//!
//! Every scalar the animator works with (seconds, blend parameters,
//! thresholds, weights, pose components) is an `i64` counting units of
//! `1 / SCALE`.  All stored values are kept inside `[-FX_MAX, FX_MAX]`;
//! values arriving from outside are saturated into that range.  The bound
//! is chosen so that the intermediate products of the weight and blend
//! computations fit comfortably in `i128`.

use vstd::prelude::*;
use vstd::arithmetic::div_mod::{lemma_div_is_ordered, lemma_div_multiples_vanish, lemma_div_nonincreasing, lemma_div_pos_is_pos};

verus! {

/// Number of fixed-point units in one whole unit (1.0 second, weight 1.0, ...).
pub const SCALE: i64 = 1_000_000;

/// Largest magnitude a stored fixed-point scalar may have.
pub const FX_MAX: i64 = 1_000_000_000_000_000;

/// Smallest value a stored fixed-point scalar may have.
pub const FX_MIN: i64 = -1_000_000_000_000_000;

/// A scalar that is inside the representable fixed-point range.
pub open spec fn fx_ok(v: i64) -> bool {
    FX_MIN <= v <= FX_MAX
}

/// Saturation of an arbitrary `i64` into the fixed-point range.
pub open spec fn spec_clamp(v: i64) -> i64 {
    if v < FX_MIN {
        FX_MIN
    } else if v > FX_MAX {
        FX_MAX
    } else {
        v
    }
}

/// Saturation of an arbitrary `i64` into the non-negative fixed-point range.
pub open spec fn spec_clamp_nonneg(v: i64) -> i64 {
    if v < 0 {
        0
    } else if v > FX_MAX {
        FX_MAX
    } else {
        v
    }
}

/// Saturation of an unbounded integer into the fixed-point range.
pub open spec fn spec_clamp_int(v: int) -> i64 {
    if v < FX_MIN {
        FX_MIN
    } else if v > FX_MAX {
        FX_MAX
    } else {
        v as i64
    }
}

/// Truncating division over the mathematical integers, made total:
/// division by zero yields zero.  This matches the behaviour of `/` on
/// Rust's signed machine integers.
pub open spec fn div_trunc(a: int, b: int) -> int {
    if b == 0 {
        0
    } else {
        let q = abs_int(a) / abs_int(b);
        if (a < 0) != (b < 0) {
            -q
        } else {
            q
        }
    }
}

pub open spec fn abs_int(a: int) -> int {
    if a < 0 {
        -a
    } else {
        a
    }
}

/// Saturate a scalar into the representable range.
pub fn fx_clamp(v: i64) -> (r: i64)
    ensures
        r == spec_clamp(v),
{
    if v < FX_MIN {
        FX_MIN
    } else if v > FX_MAX {
        FX_MAX
    } else {
        v
    }
}

/// Saturate a scalar into the non-negative representable range.
pub fn fx_clamp_nonneg(v: i64) -> (r: i64)
    ensures
        r == spec_clamp_nonneg(v),
{
    if v < 0 {
        0
    } else if v > FX_MAX {
        FX_MAX
    } else {
        v
    }
}

/// Truncating division on `i128`, matching `div_trunc`.
pub fn div_trunc_i128(a: i128, b: i128) -> (r: i128)
    requires
        b != 0,
        a != i128::MIN,
        b != i128::MIN,
    ensures
        r == div_trunc(a as int, b as int),
{
    let neg: bool = (a < 0) != (b < 0);
    let na: u128 = if a < 0 {
        (-a) as u128
    } else {
        a as u128
    };
    let nb: u128 = if b < 0 {
        (-b) as u128
    } else {
        b as u128
    };
    let q: u128 = na / nb;
    proof {
        lemma_div_nonincreasing(na as int, nb as int);
        lemma_div_nonneg(na as int, nb as int);
    }
    if neg {
        -(q as i128)
    } else {
        q as i128
    }
}

/// A quotient of non-negative values is bounded by any `m` with `a <= b * m`.
pub proof fn lemma_div_le(a: int, b: int, m: int)
    requires
        0 <= a,
        0 < b,
        0 <= m,
        a <= b * m,
    ensures
        a / b <= m,
{
    lemma_div_is_ordered(a, b * m, b);
    lemma_div_multiples_vanish(m, b);
}

/// Division of non-negative values yields a non-negative result.
pub proof fn lemma_div_nonneg(a: int, b: int)
    requires
        0 <= a,
        0 < b,
    ensures
        0 <= a / b,
{
    if a == 0 {
        lemma_div_nonincreasing(a, b);
    } else {
        lemma_div_pos_is_pos(a, b);
    }
}

/// The magnitude of a product is bounded by the product of the bounds.
pub proof fn lemma_mul_abs_bound(a: int, b: int, m1: int, m2: int)
    requires
        abs_int(a) <= m1,
        abs_int(b) <= m2,
    ensures
        abs_int(a * b) <= m1 * m2,
{
    assert(abs_int(a * b) <= m1 * m2) by (nonlinear_arith)
        requires
            abs_int(a) <= m1,
            abs_int(b) <= m2,
    ;
}

} // verus!
