//! Overflow-safe wide-integer arithmetic for the solvency check: products of
//! two 128-bit quantities are carried exactly as 256-bit values, represented
//! as `(high, low)` pairs of `u128`.  The three 256-bit operations are done
//! by `primitive_types::U256` behind trusted wrappers whose contracts state
//! the exact integer result; the comparison is verified here.

use primitive_types::U256;
use vstd::prelude::*;

verus! {

/// 2^128, the weight of the high half of a 256-bit value.
pub open spec fn pow2_128() -> int {
    u128::MAX + 1
}

/// The integer a `(high, low)` pair of `u128` halves stands for.
pub open spec fn wide(hi: u128, lo: u128) -> int {
    hi * pow2_128() + lo
}

/// 2^256 - 1, the largest 256-bit value.
pub open spec fn u256_max() -> int {
    pow2_128() * pow2_128() - 1
}

/// `a * b`, saturated at 2^256 - 1.  The product of two values that are at
/// most 2^128 - 1 never exceeds the bound, so saturation only matters when
/// `a` is itself a 256-bit value.
pub open spec fn mul_saturated(a: int, b: int) -> int {
    if a * b > u256_max() {
        u256_max()
    } else {
        a * b
    }
}

/// The product of two 128-bit values always lies strictly below 2^256 - 1,
/// so the saturating ceiling multiplication never saturates on, and never
/// equals, such a product.
pub proof fn lemma_mul_u128_lt_u256_max(a: u128, b: u128)
    ensures
        a * b < u256_max(),
{
    assert(a * b <= u128::MAX * u128::MAX) by (nonlinear_arith)
        requires
            0 <= a <= u128::MAX,
            0 <= b <= u128::MAX,
    ;
    assert(u128::MAX * u128::MAX < (u128::MAX + 1) * (u128::MAX + 1) - 1) by (nonlinear_arith);
}

/// Relies on `primitive_types::U256` multiplication: the exact 256-bit
/// product of two 128-bit factors, which cannot overflow 256 bits.
#[verifier::external_body]
pub(crate) fn wide_mul(a: u128, b: u128) -> (r: (u128, u128))
    ensures
        wide(r.0, r.1) == a * b,
{
    let p = U256::from(a) * U256::from(b);
    ((p >> 128).low_u128(), p.low_u128())
}

/// Relies on `primitive_types::U256` division: the quotient, truncated
/// toward zero, of a 256-bit dividend by a nonzero 128-bit divisor.
#[verifier::external_body]
pub(crate) fn wide_div(n_hi: u128, n_lo: u128, d: u128) -> (r: (u128, u128))
    requires
        d != 0,
    ensures
        wide(r.0, r.1) == wide(n_hi, n_lo) / (d as int),
{
    let q = ((U256::from(n_hi) << 128) | U256::from(n_lo)) / U256::from(d);
    ((q >> 128).low_u128(), q.low_u128())
}

/// Relies on `primitive_types::U256::checked_mul`: the product of a 256-bit
/// value and a 128-bit factor, saturated at 2^256 - 1 when it overflows.
#[verifier::external_body]
pub(crate) fn wide_mul_saturating(a_hi: u128, a_lo: u128, m: u128) -> (r: (u128, u128))
    ensures
        wide(r.0, r.1) == mul_saturated(wide(a_hi, a_lo), m as int),
{
    let a = (U256::from(a_hi) << 128) | U256::from(a_lo);
    let p = a.checked_mul(U256::from(m)).unwrap_or(U256::MAX);
    ((p >> 128).low_u128(), p.low_u128())
}

/// Strict comparison of two 256-bit values given as `(high, low)` pairs.
pub(crate) fn wide_lt(a_hi: u128, a_lo: u128, b_hi: u128, b_lo: u128) -> (r: bool)
    ensures
        r == (wide(a_hi, a_lo) < wide(b_hi, b_lo)),
{
    proof {
        if a_hi < b_hi {
            assert(a_hi * pow2_128() + pow2_128() <= b_hi * pow2_128()) by (nonlinear_arith)
                requires
                    a_hi < b_hi,
            ;
        }
        if a_hi > b_hi {
            assert(b_hi * pow2_128() + pow2_128() <= a_hi * pow2_128()) by (nonlinear_arith)
                requires
                    a_hi > b_hi,
            ;
        }
    }
    if a_hi < b_hi {
        true
    } else if a_hi == b_hi {
        a_lo < b_lo
    } else {
        false
    }
}

} // verus!
