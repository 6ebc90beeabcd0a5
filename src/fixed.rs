//! Fixed-point arithmetic on prices, delegated to `sp_arithmetic::FixedI64`
//! (nine decimal places). Prices travel through the library as the inner
//! `i64` of that type.
use sp_arithmetic::traits::CheckedMul;
use sp_arithmetic::{FixedI64, FixedPointNumber};
use vstd::prelude::*;

verus! {

/// The scale of a price: one unit is `ACCURACY` inner units.
pub const ACCURACY: i64 = 1_000_000_000;

/// `x` as an `i64`, when it fits.
pub open spec fn fit_i64(x: int) -> Option<i64> {
    if i64::MIN <= x <= i64::MAX {
        Some(x as i64)
    } else {
        None
    }
}

/// `n / d` rounded down, negated when `negative`: a quotient rounded toward
/// zero.
pub open spec fn signed_quotient(n: nat, d: nat, negative: bool) -> int {
    if negative {
        -((n / d) as int)
    } else {
        (n / d) as int
    }
}

pub open spec fn abs(x: int) -> nat {
    if x < 0 {
        (-x) as nat
    } else {
        x as nat
    }
}

/// The product of two fixed-point prices, rounded toward zero, when it fits.
pub open spec fn fixed_mul_spec(a: i64, b: i64) -> Option<i64> {
    fit_i64(signed_quotient(abs(a * b), ACCURACY as nat, a * b < 0))
}

/// One divided by a fixed-point price, rounded toward zero; none for zero.
pub open spec fn fixed_reciprocal_spec(a: i64) -> Option<i64> {
    if a == 0 {
        None
    } else {
        fit_i64(signed_quotient((ACCURACY * ACCURACY) as nat, abs(a as int), a < 0))
    }
}

/// The fixed-point value of `n / d`, rounded down and capped at the largest
/// price.
pub open spec fn fixed_from_rational_spec(n: u128, d: u128) -> i64 {
    if (n as int) * (ACCURACY as int) / (d as int) <= i64::MAX {
        ((n as int) * (ACCURACY as int) / (d as int)) as i64
    } else {
        i64::MAX
    }
}

/// Relies on `FixedI64::checked_mul`: the product of the two numbers with
/// the magnitude rounded down, or none when it does not fit.
#[verifier::external_body]
pub(crate) fn fixed_mul(a: i64, b: i64) -> (r: Option<i64>)
    ensures
        r == fixed_mul_spec(a, b),
{
    FixedI64::from_inner(a).checked_mul(&FixedI64::from_inner(b)).map(|v| v.into_inner())
}

/// Relies on `FixedPointNumber::reciprocal` (`one().checked_div(self)`):
/// none for zero, else one over the number with the magnitude rounded down,
/// or none when it does not fit.
#[verifier::external_body]
pub(crate) fn fixed_reciprocal(a: i64) -> (r: Option<i64>)
    ensures
        r == fixed_reciprocal_spec(a),
{
    FixedI64::from_inner(a).reciprocal().map(|v| v.into_inner())
}

/// Relies on `FixedPointNumber::saturating_from_rational`: `n / d` rounded
/// down, saturating at the largest value; it panics when `d` is zero.
#[verifier::external_body]
pub(crate) fn fixed_from_rational(n: u128, d: u128) -> (r: i64)
    requires
        d > 0,
    ensures
        r == fixed_from_rational_spec(n, d),
{
    FixedI64::saturating_from_rational(n, d).into_inner()
}

} // verus!
