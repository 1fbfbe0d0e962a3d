//! Trusted bridge to `num_bigint`.
//!
//! Field elements store their value and modulus as arbitrary-precision
//! integers. Everything Verus knows about a `BigInt` it learns from the
//! contracts below, all stated over `big_value`, the mathematical integer a
//! `BigInt` stands for. `BigInt` keeps one canonical representation per
//! integer, so equality of representations and equality of values coincide.

use vstd::arithmetic::power::pow;
use vstd::prelude::*;

use num_bigint::BigInt;
use num_integer::Integer;

verus! {

#[verifier::external_type_specification]
#[verifier::external_body]
pub struct ExBigInt(BigInt);

/// The integer that a `BigInt` stands for.
pub uninterp spec fn big_value(b: BigInt) -> int;

/// Relies on `<BigInt as From<u64>>::from`: the result stands for `n`.
#[verifier::external_body]
pub(crate) fn big_from_u64(n: u64) -> (r: BigInt)
    ensures
        big_value(r) == n as int,
{
    BigInt::from(n)
}

/// Relies on `<BigInt as Clone>::clone`: the copy stands for the same integer.
#[verifier::external_body]
pub(crate) fn big_clone(a: &BigInt) -> (r: BigInt)
    ensures
        big_value(r) == big_value(*a),
{
    a.clone()
}

/// Relies on `<BigInt as PartialEq>::eq`: representations are canonical, so
/// two `BigInt`s are equal exactly when they stand for the same integer.
#[verifier::external_body]
pub(crate) fn big_eq(a: &BigInt, b: &BigInt) -> (r: bool)
    ensures
        r <==> big_value(*a) == big_value(*b),
{
    a == b
}

/// Relies on `<BigInt as PartialOrd>::lt`: the order of the integers stood for.
#[verifier::external_body]
pub(crate) fn big_lt(a: &BigInt, b: &BigInt) -> (r: bool)
    ensures
        r <==> big_value(*a) < big_value(*b),
{
    a < b
}

/// Relies on `<&BigInt as Add>::add`: integer addition.
#[verifier::external_body]
pub(crate) fn big_add(a: &BigInt, b: &BigInt) -> (r: BigInt)
    ensures
        big_value(r) == big_value(*a) + big_value(*b),
{
    a + b
}

/// Relies on `<&BigInt as Sub>::sub`: integer subtraction.
#[verifier::external_body]
pub(crate) fn big_sub(a: &BigInt, b: &BigInt) -> (r: BigInt)
    ensures
        big_value(r) == big_value(*a) - big_value(*b),
{
    a - b
}

/// Relies on `<&BigInt as Mul>::mul`: integer multiplication.
#[verifier::external_body]
pub(crate) fn big_mul(a: &BigInt, b: &BigInt) -> (r: BigInt)
    ensures
        big_value(r) == big_value(*a) * big_value(*b),
{
    a * b
}

/// Relies on `num_integer::Integer::mod_floor` for `BigInt`: floor-style
/// modulo, so for a positive `m` the result is in `[0, m)` whatever the sign
/// of `a`, which is what `%` means on Verus's mathematical integers.
/// Divides by `m`, hence the `requires`.
#[verifier::external_body]
pub(crate) fn big_mod_floor(a: &BigInt, m: &BigInt) -> (r: BigInt)
    requires
        big_value(*m) > 0,
    ensures
        big_value(r) == big_value(*a) % big_value(*m),
{
    a.mod_floor(m)
}

/// Relies on `BigInt::modpow`: `(base ^ exp) mod m`, rounded like `mod_floor`,
/// so for a positive `m` the result is in `[0, m)`. It panics on a negative
/// exponent or a zero modulus, hence the `requires`.
#[verifier::external_body]
pub(crate) fn big_modpow(base: &BigInt, exp: &BigInt, m: &BigInt) -> (r: BigInt)
    requires
        big_value(*exp) >= 0,
        big_value(*m) > 0,
    ensures
        big_value(r) == pow(big_value(*base), big_value(*exp) as nat) % big_value(*m),
{
    base.modpow(exp, m)
}

} // verus!
