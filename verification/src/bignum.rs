//! Arbitrary-precision naturals of the num-bigint crate, as far as the
//! Lucas–Lehmer test needs them.
//!
//! Nothing in this module is proved. Each contract states, over the number a
//! `BigUint` stands for, what the named operation of the crate computes.

use num_bigint::BigUint;
use vstd::arithmetic::power2::pow2;
use vstd::prelude::*;

verus! {

/// An arbitrary-precision natural number of the num-bigint crate.
#[verifier::external_type_specification]
#[verifier::external_body]
pub struct ExBigUint(num_bigint::BigUint);

/// The natural number that a `BigUint` stands for.
pub uninterp spec fn magnitude(n: BigUint) -> nat;

/// `BigUint::from` on a `u32`: the same number.
#[verifier::external_body]
pub(crate) fn big_from(v: u32) -> (n: BigUint)
    ensures
        magnitude(n) == v,
{
    BigUint::from(v)
}

/// `One::one` of num-traits for `BigUint`: the number one.
#[verifier::external_body]
pub(crate) fn big_one() -> (n: BigUint)
    ensures
        magnitude(n) == 1,
{
    num_traits::One::one()
}

/// `Zero::is_zero` of num-traits for `BigUint`: whether the number is zero.
#[verifier::external_body]
pub(crate) fn big_is_zero(a: &BigUint) -> (zero: bool)
    ensures
        zero == (magnitude(*a) == 0),
{
    num_traits::Zero::is_zero(a)
}

/// `Clone::clone` of `BigUint`: the same number.
#[verifier::external_body]
pub(crate) fn big_clone(a: &BigUint) -> (n: BigUint)
    ensures
        magnitude(n) == magnitude(*a),
{
    a.clone()
}

/// `BigUint::bits`: the fewest bits that express the number, which is zero
/// for zero.
#[verifier::external_body]
pub(crate) fn big_bits(a: &BigUint) -> (bits: u64)
    ensures
        magnitude(*a) < pow2(bits as nat),
        bits > 0 ==> magnitude(*a) >= pow2((bits - 1) as nat),
{
    a.bits()
}

/// `<<` of `BigUint` by a `u32`: multiplication by a power of two.
#[verifier::external_body]
pub(crate) fn big_shl(a: BigUint, by: u32) -> (n: BigUint)
    ensures
        magnitude(n) == magnitude(a) * pow2(by as nat),
{
    a << by
}

/// `>>` of `&BigUint` by a `u32`: division by a power of two, rounding down.
#[verifier::external_body]
pub(crate) fn big_shr(a: &BigUint, by: u32) -> (n: BigUint)
    ensures
        magnitude(n) == magnitude(*a) / pow2(by as nat),
{
    a >> by
}

/// `&` of two `&BigUint` where the second is a mask of low one-bits, that is
/// one less than a power of two: the remainder by that power of two.
#[verifier::external_body]
pub(crate) fn big_low_bits(a: &BigUint, mask: &BigUint) -> (n: BigUint)
    requires
        exists|k: nat| magnitude(*mask) + 1 == pow2(k),
    ensures
        magnitude(n) == magnitude(*a) % (magnitude(*mask) + 1),
{
    a & mask
}

/// `+` of two `BigUint`: the sum.
#[verifier::external_body]
pub(crate) fn big_add(a: BigUint, b: BigUint) -> (n: BigUint)
    ensures
        magnitude(n) == magnitude(a) + magnitude(b),
{
    a + b
}

/// `-` of a `BigUint` and a `&BigUint`: the difference. The crate panics where
/// the second is the larger, so that is ruled out.
#[verifier::external_body]
pub(crate) fn big_sub(a: BigUint, b: &BigUint) -> (n: BigUint)
    requires
        magnitude(a) >= magnitude(*b),
    ensures
        magnitude(n) == magnitude(a) - magnitude(*b),
{
    a - b
}

/// `*` of two `&BigUint`: the product.
#[verifier::external_body]
pub(crate) fn big_mul(a: &BigUint, b: &BigUint) -> (n: BigUint)
    ensures
        magnitude(n) == magnitude(*a) * magnitude(*b),
{
    a * b
}

/// `>=` of two `BigUint`: the order of the numbers.
#[verifier::external_body]
pub(crate) fn big_ge(a: &BigUint, b: &BigUint) -> (ge: bool)
    ensures
        ge == (magnitude(*a) >= magnitude(*b)),
{
    a >= b
}

} // verus!
