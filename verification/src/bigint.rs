//! Trusted wrappers around num's arbitrary-precision unsigned integers.
//!
//! The scalar field delegates its modular big-integer arithmetic to
//! `num::bigint::BigUint`, as reading, adding, multiplying and reducing
//! natural numbers. Each wrapper states what the wrapped call returns in
//! terms of `biguint_value`, the number a `BigUint` holds.

use crate::limbs::{bytes_val, limbs_val};
use num::bigint::BigUint;
use vstd::prelude::*;

verus! {

#[verifier::external_type_specification]
#[verifier::external_body]
pub struct ExBigUint(BigUint);

/// The natural number that a `BigUint` holds.
pub uninterp spec fn biguint_value(b: BigUint) -> nat;

/// Relies on `BigUint::from`: a `u64` becomes the same number.
#[verifier::external_body]
pub fn bu_from_u64(x: u64) -> (r: BigUint)
    ensures
        biguint_value(r) == x,
{
    BigUint::from(x)
}

/// Relies on `BigUint::from_bytes_le`: the bytes are read little-endian.
#[verifier::external_body]
pub fn bu_from_bytes_le(b: &[u8]) -> (r: BigUint)
    ensures
        biguint_value(r) == bytes_val(b@),
{
    BigUint::from_bytes_le(b)
}

/// Relies on `BigUint`'s addition.
#[verifier::external_body]
pub fn bu_add(a: &BigUint, b: &BigUint) -> (r: BigUint)
    ensures
        biguint_value(r) == biguint_value(*a) + biguint_value(*b),
{
    a + b
}

/// Relies on `BigUint`'s subtraction, which requires the difference to be
/// nonnegative.
#[verifier::external_body]
pub fn bu_sub(a: &BigUint, b: &BigUint) -> (r: BigUint)
    requires
        biguint_value(*b) <= biguint_value(*a),
    ensures
        biguint_value(r) == biguint_value(*a) - biguint_value(*b),
{
    a - b
}

/// Relies on `BigUint`'s multiplication.
#[verifier::external_body]
pub fn bu_mul(a: &BigUint, b: &BigUint) -> (r: BigUint)
    ensures
        biguint_value(r) == biguint_value(*a) * biguint_value(*b),
{
    a * b
}

/// Relies on `BigUint`'s Euclidean remainder, defined for a nonzero divisor.
#[verifier::external_body]
pub fn bu_rem(a: &BigUint, m: &BigUint) -> (r: BigUint)
    requires
        biguint_value(*m) > 0,
    ensures
        biguint_value(r) == biguint_value(*a) % biguint_value(*m),
{
    a % m
}

/// Relies on `BigUint::modpow`: the power of the base, reduced by the
/// modulus, which must be nonzero.
#[verifier::external_body]
pub fn bu_modpow(a: &BigUint, e: &BigUint, m: &BigUint) -> (r: BigUint)
    requires
        biguint_value(*m) > 0,
    ensures
        biguint_value(r) as int == vstd::arithmetic::power::pow(
            biguint_value(*a) as int,
            biguint_value(*e),
        ) % (biguint_value(*m) as int),
{
    a.modpow(e, m)
}

/// Relies on `BigUint`'s ordering, which compares the held numbers.
#[verifier::external_body]
pub fn bu_lt(a: &BigUint, b: &BigUint) -> (r: bool)
    ensures
        r == (biguint_value(*a) < biguint_value(*b)),
{
    a < b
}

/// Relies on `BigUint::to_u64_digits`: the little-endian 64-bit digits of
/// the number, with no trailing zero digit.
#[verifier::external_body]
pub fn bu_to_u64_digits(a: &BigUint) -> (r: Vec<u64>)
    ensures
        limbs_val(r@) == biguint_value(*a),
        r@.len() > 0 ==> r@[r@.len() - 1] != 0,
{
    a.to_u64_digits()
}

} // verus!
