//! Finite-field elements and their arithmetic.
//!
//! A `FieldElement` pairs a value with the modulus of its field; the value is
//! kept canonical, in `[0, modulus)`. The modulus is assumed (not verified) to
//! be prime. Operations combine two elements of the same field and reduce
//! with floor-style modulo; combining elements of different fields is a
//! category error, reported as [`ECCError::TypeError`] before any arithmetic.

use vstd::arithmetic::div_mod::{
    lemma_add_mod_noop, lemma_add_mod_noop_right, lemma_div_pos_is_pos,
    lemma_fundamental_div_mod, lemma_mod_add_multiples_vanish, lemma_mod_division_less_than_divisor,
    lemma_mul_mod_noop_general,
    lemma_mul_mod_noop_left, lemma_mul_mod_noop_right, lemma_small_mod, lemma_sub_mod_noop,
};
use vstd::arithmetic::mul::lemma_mul_is_associative;
use vstd::arithmetic::power::{lemma_pow0, lemma_pow1, lemma_pow_adds, lemma_pow_multiplies, pow};
use vstd::prelude::*;

use crate::primes::{is_prime, lemma_fermat_little};

use crate::bigint::{
    big_add, big_clone, big_eq, big_from_u64, big_lt, big_mod_floor, big_modpow, big_mul, big_sub,
    big_value,
};

use num_bigint::BigInt;

verus! {

/// An error of the arithmetic layer: either the operands belong to different
/// fields (a category error), or a value breaks a structural precondition.
#[derive(Debug)]
pub enum ECCError {
    TypeError(String),
    ValueError(String),
}

/// Whether `v` is the canonical representative of its class modulo `p`.
pub open spec fn canonical(v: int, p: int) -> bool {
    0 <= v < p
}

/// What addition in the field returns: the sum, reduced into `[0, p)`.
pub open spec fn fe_add(a: int, b: int, p: int) -> int {
    (a + b) % p
}

/// What subtraction in the field returns: the difference, reduced into
/// `[0, p)` even when `a - b` is negative.
pub open spec fn fe_sub(a: int, b: int, p: int) -> int {
    (a - b) % p
}

/// What multiplication in the field returns: the product, reduced into
/// `[0, p)`.
pub open spec fn fe_mul(a: int, b: int, p: int) -> int {
    (a * b) % p
}

/// The Fermat inverse of `b`: `b^(p - 2) mod p`. For a prime `p` and
/// `b != 0`, Fermat's little theorem makes this the multiplicative inverse.
pub open spec fn fe_inv(b: int, p: int) -> int {
    pow(b, (p - 2) as nat) % p
}

/// What division in the field returns: `a` times the Fermat inverse of `b`,
/// reduced into `[0, p)`.
pub open spec fn fe_div(a: int, b: int, p: int) -> int {
    fe_mul(a, fe_inv(b, p), p)
}

/// What exponentiation in the field returns: the exponent is first reduced
/// modulo `p - 1` (by Fermat's little theorem this loses nothing in a prime
/// field, and it is what lets a negative exponent mean the inverse power),
/// then the power is taken modulo `p`.
pub open spec fn fe_pow(v: int, e: int, p: int) -> int
    recommends
        p >= 2,
{
    pow(v, (e % (p - 1)) as nat) % p
}

/// An element of the finite field of order `prime`: a canonical value in
/// `[0, prime)`. `prime` is assumed prime; the constructor checks the range,
/// not primality.
#[derive(Debug)]
pub struct FieldElement {
    pub num: BigInt,
    pub prime: BigInt,
}

impl FieldElement {
    /// The integer this element stands for.
    pub open spec fn value(self) -> int {
        big_value(self.num)
    }

    /// The order of the field this element belongs to.
    pub open spec fn modulus(self) -> int {
        big_value(self.prime)
    }

    /// Well-formed: the value is the canonical representative of its class.
    pub open spec fn wf(self) -> bool {
        canonical(self.value(), self.modulus())
    }

    /// Builds the element of the field of order `prime` standing for `num`.
    /// Succeeds exactly when `num` already is a canonical representative,
    /// and then returns it unchanged.
    pub fn new(num: BigInt, prime: BigInt) -> (r: Result<FieldElement, ECCError>)
        ensures
            r is Ok <==> canonical(big_value(num), big_value(prime)),
            (r matches Ok(fe) ==> fe.wf() && fe.value() == big_value(num) && fe.modulus()
                == big_value(prime)),
            (r matches Err(e) ==> e is ValueError),
    {
        let zero = big_from_u64(0);
        if !big_lt(&num, &prime) || big_lt(&num, &zero) {
            Err(ECCError::ValueError("num not in the field range 0 to prime - 1".to_string()))
        } else {
            Ok(FieldElement { num, prime })
        }
    }

    /// Field addition. Succeeds exactly when both operands belong to the same
    /// field; the result is in that field again.
    pub fn add(self, rhs: FieldElement) -> (r: Result<FieldElement, ECCError>)
        requires
            self.wf(),
            rhs.wf(),
        ensures
            r is Ok <==> self.modulus() == rhs.modulus(),
            (r matches Ok(fe) ==> fe.wf() && fe.modulus() == self.modulus() && fe.value()
                == fe_add(self.value(), rhs.value(), self.modulus())),
            (r matches Err(e) ==> e is TypeError),
    {
        if !big_eq(&self.prime, &rhs.prime) {
            Err(ECCError::TypeError("cannot add two elements in different fields".to_string()))
        } else {
            let sum = big_add(&self.num, &rhs.num);
            let num = big_mod_floor(&sum, &self.prime);
            Ok(FieldElement { num, prime: self.prime })
        }
    }

    /// Field subtraction. Succeeds exactly when both operands belong to the
    /// same field; the result is reduced into `[0, modulus)` even when the
    /// integer difference is negative.
    pub fn sub(self, rhs: FieldElement) -> (r: Result<FieldElement, ECCError>)
        requires
            self.wf(),
            rhs.wf(),
        ensures
            r is Ok <==> self.modulus() == rhs.modulus(),
            (r matches Ok(fe) ==> fe.wf() && fe.modulus() == self.modulus() && fe.value()
                == fe_sub(self.value(), rhs.value(), self.modulus())),
            (r matches Err(e) ==> e is TypeError),
    {
        if !big_eq(&self.prime, &rhs.prime) {
            Err(ECCError::TypeError("cannot subtract two elements in different fields".to_string()))
        } else {
            let diff = big_sub(&self.num, &rhs.num);
            let num = big_mod_floor(&diff, &self.prime);
            Ok(FieldElement { num, prime: self.prime })
        }
    }

    /// Field multiplication. Succeeds exactly when both operands belong to
    /// the same field.
    pub fn mul(self, rhs: FieldElement) -> (r: Result<FieldElement, ECCError>)
        requires
            self.wf(),
            rhs.wf(),
        ensures
            r is Ok <==> self.modulus() == rhs.modulus(),
            (r matches Ok(fe) ==> fe.wf() && fe.modulus() == self.modulus() && fe.value()
                == fe_mul(self.value(), rhs.value(), self.modulus())),
            (r matches Err(e) ==> e is TypeError),
    {
        if !big_eq(&self.prime, &rhs.prime) {
            Err(ECCError::TypeError("cannot multiply two elements in different fields".to_string()))
        } else {
            let prod = big_mul(&self.num, &rhs.num);
            let num = big_mod_floor(&prod, &self.prime);
            Ok(FieldElement { num, prime: self.prime })
        }
    }

    /// Field division, through the Fermat inverse of the divisor. Succeeds
    /// exactly when both operands belong to the same field and the divisor is
    /// not the zero element, which has no inverse.
    pub fn div(self, rhs: FieldElement) -> (r: Result<FieldElement, ECCError>)
        requires
            self.wf(),
            rhs.wf(),
        ensures
            r is Ok <==> self.modulus() == rhs.modulus() && rhs.value() != 0,
            (r matches Ok(fe) ==> fe.wf() && fe.modulus() == self.modulus() && fe.value()
                == fe_div(self.value(), rhs.value(), self.modulus())),
            (r matches Err(e) ==> (e is TypeError <==> self.modulus() != rhs.modulus())),
    {
        if !big_eq(&self.prime, &rhs.prime) {
            Err(ECCError::TypeError("cannot divide two elements in different fields".to_string()))
        } else {
            let zero = big_from_u64(0);
            if big_eq(&rhs.num, &zero) {
                Err(ECCError::ValueError("cannot divide by the zero element".to_string()))
            } else {
                let two = big_from_u64(2);
                let fermat_exp = big_sub(&self.prime, &two);
                let inverse = big_modpow(&rhs.num, &fermat_exp, &self.prime);
                let prod = big_mul(&self.num, &inverse);
                let num = big_mod_floor(&prod, &self.prime);
                Ok(FieldElement { num, prime: self.prime })
            }
        }
    }

    /// Field exponentiation. The exponent is reduced modulo `modulus - 1`
    /// with floor-style modulo, so a negative exponent means the inverse
    /// power. Fails only for the zero element raised to a negative exponent,
    /// the same undefined case as division by zero. The modulus is assumed
    /// prime, hence at least 2.
    pub fn pow(&self, exponent: BigInt) -> (r: Result<FieldElement, ECCError>)
        requires
            self.wf(),
            self.modulus() >= 2,
        ensures
            r is Ok <==> !(self.value() == 0 && big_value(exponent) < 0),
            (r matches Ok(fe) ==> fe.wf() && fe.modulus() == self.modulus() && fe.value()
                == fe_pow(self.value(), big_value(exponent), self.modulus())),
            (r matches Err(e) ==> e is ValueError),
    {
        let zero = big_from_u64(0);
        if big_eq(&self.num, &zero) && big_lt(&exponent, &zero) {
            Err(ECCError::ValueError(
                "cannot raise the zero element to a negative exponent".to_string(),
            ))
        } else {
            let one = big_from_u64(1);
            let fermat_exp = big_sub(&self.prime, &one);
            let n = big_mod_floor(&exponent, &fermat_exp);
            let num = big_modpow(&self.num, &n, &self.prime);
            Ok(FieldElement { num, prime: big_clone(&self.prime) })
        }
    }
}

/// Whether two field elements stand for the same value of the same field:
/// what `==` on [`FieldElement`] returns.
pub open spec fn fe_eq(a: FieldElement, b: FieldElement) -> bool {
    a.value() == b.value() && a.modulus() == b.modulus()
}

impl Clone for FieldElement {
    /// The copy stands for the same value of the same field.
    fn clone(&self) -> (r: Self)
        ensures
            fe_eq(r, *self),
    {
        FieldElement { num: big_clone(&self.num), prime: big_clone(&self.prime) }
    }
}

impl PartialEq for FieldElement {
    fn eq(&self, other: &Self) -> (r: bool) {
        big_eq(&self.num, &other.num) && big_eq(&self.prime, &other.prime)
    }
}

impl vstd::std_specs::cmp::PartialEqSpecImpl for FieldElement {
    open spec fn obeys_eq_spec() -> bool {
        true
    }

    open spec fn eq_spec(&self, other: &Self) -> bool {
        fe_eq(*self, *other)
    }
}

/// Floor-style modulo: for `b > 0` the result is in `[0, b)` whatever the
/// sign of `a`, unlike the truncating remainder. Every reduction the field
/// operations perform has these semantics.
pub fn modulus(a: &BigInt, b: &BigInt) -> (r: BigInt)
    requires
        big_value(*b) > 0,
    ensures
        big_value(r) == big_value(*a) % big_value(*b),
        canonical(big_value(r), big_value(*b)),
{
    big_mod_floor(a, b)
}

/// Fermat's identity for `b` in the field of order `p`: `b^(p-1) mod p == 1`.
/// By Fermat's little theorem it holds of every nonzero `b` whenever `p` is
/// prime; the field assumes primality rather than verifying it, so the laws
/// about division either take the identity as a hypothesis or discharge it
/// from [`is_prime`] through [`lemma_fermat_little`].
pub open spec fn fermat_identity(b: int, p: int) -> bool {
    pow(b, (p - 1) as nat) % p == 1
}

/// Adding `b` and then subtracting it gives `a` back: `(a + b) - b == a` for
/// field elements of one field.
pub proof fn lemma_add_then_sub(a: FieldElement, b: FieldElement)
    requires
        a.wf(),
        b.wf(),
        a.modulus() == b.modulus(),
    ensures
        fe_sub(fe_add(a.value(), b.value(), a.modulus()), b.value(), a.modulus()) == a.value(),
{
    let p = a.modulus();
    let av = a.value();
    let bv = b.value();
    lemma_small_mod(bv as nat, p as nat);
    lemma_sub_mod_noop(av + bv, bv, p);
    lemma_small_mod(av as nat, p as nat);
}

/// Field addition is commutative.
pub proof fn lemma_add_comm(a: FieldElement, b: FieldElement)
    requires
        a.wf(),
        b.wf(),
        a.modulus() == b.modulus(),
    ensures
        fe_add(a.value(), b.value(), a.modulus()) == fe_add(b.value(), a.value(), a.modulus()),
{
}

/// Field multiplication is commutative.
pub proof fn lemma_mul_comm(a: FieldElement, b: FieldElement)
    requires
        a.wf(),
        b.wf(),
        a.modulus() == b.modulus(),
    ensures
        fe_mul(a.value(), b.value(), a.modulus()) == fe_mul(b.value(), a.value(), a.modulus()),
{
}

/// Field addition is associative.
pub proof fn lemma_add_assoc(a: FieldElement, b: FieldElement, c: FieldElement)
    requires
        a.wf(),
        b.wf(),
        c.wf(),
        a.modulus() == b.modulus(),
        a.modulus() == c.modulus(),
    ensures
        fe_add(fe_add(a.value(), b.value(), a.modulus()), c.value(), a.modulus()) == fe_add(
            a.value(),
            fe_add(b.value(), c.value(), a.modulus()),
            a.modulus(),
        ),
{
    let p = a.modulus();
    let av = a.value();
    let bv = b.value();
    let cv = c.value();
    lemma_small_mod(cv as nat, p as nat);
    lemma_add_mod_noop(av + bv, cv, p);
    lemma_add_mod_noop_right(av, bv + cv, p);
}

/// Field multiplication is associative.
pub proof fn lemma_mul_assoc(a: FieldElement, b: FieldElement, c: FieldElement)
    requires
        a.wf(),
        b.wf(),
        c.wf(),
        a.modulus() == b.modulus(),
        a.modulus() == c.modulus(),
    ensures
        fe_mul(fe_mul(a.value(), b.value(), a.modulus()), c.value(), a.modulus()) == fe_mul(
            a.value(),
            fe_mul(b.value(), c.value(), a.modulus()),
            a.modulus(),
        ),
{
    let p = a.modulus();
    let av = a.value();
    let bv = b.value();
    let cv = c.value();
    lemma_mul_mod_noop_left(av * bv, cv, p);
    lemma_mul_mod_noop_right(av, bv * cv, p);
    lemma_mul_is_associative(av, bv, cv);
}

/// A nonzero element times its Fermat inverse is the unit: division really
/// divides. Stated under Fermat's identity, which primality of the modulus
/// grants every nonzero element.
pub proof fn lemma_mul_inverse(b: FieldElement)
    requires
        b.wf(),
        b.value() != 0,
        fermat_identity(b.value(), b.modulus()),
    ensures
        fe_mul(b.value(), fe_inv(b.value(), b.modulus()), b.modulus()) == 1,
{
    let p = b.modulus();
    let bv = b.value();
    lemma_mul_mod_noop_right(bv, pow(bv, (p - 2) as nat), p);
    lemma_pow1(bv);
    lemma_pow_adds(bv, 1nat, (p - 2) as nat);
}

/// Multiplying by `b` and then dividing by it gives `a` back:
/// `(a * b) / b == a` for field elements of one field and nonzero `b`.
/// Stated under Fermat's identity, which primality of the modulus grants
/// every nonzero element.
pub proof fn lemma_mul_then_div(a: FieldElement, b: FieldElement)
    requires
        a.wf(),
        b.wf(),
        a.modulus() == b.modulus(),
        b.value() != 0,
        fermat_identity(b.value(), a.modulus()),
    ensures
        fe_div(fe_mul(a.value(), b.value(), a.modulus()), b.value(), a.modulus()) == a.value(),
{
    let p = a.modulus();
    let av = a.value();
    let bv = b.value();
    let inv = pow(bv, (p - 2) as nat);
    lemma_mul_mod_noop_general(av * bv, inv, p);
    lemma_mul_is_associative(av, bv, inv);
    lemma_pow1(bv);
    lemma_pow_adds(bv, 1nat, (p - 2) as nat);
    lemma_mul_mod_noop_right(av, pow(bv, (p - 1) as nat), p);
    lemma_small_mod(av as nat, p as nat);
}

/// A nonzero element of a prime field times its Fermat inverse is the unit:
/// primality alone makes division divide, by Fermat's little theorem.
pub proof fn lemma_mul_inverse_prime(b: FieldElement)
    requires
        b.wf(),
        b.value() != 0,
        is_prime(b.modulus()),
    ensures
        fe_mul(b.value(), fe_inv(b.value(), b.modulus()), b.modulus()) == 1,
{
    lemma_fermat_little(b.value(), b.modulus());
    lemma_mul_inverse(b);
}

/// Multiplying by `b` and then dividing by it gives `a` back, in any prime
/// field and for any nonzero `b`: `(a * b) / b == a`, from primality alone.
pub proof fn lemma_mul_then_div_prime(a: FieldElement, b: FieldElement)
    requires
        a.wf(),
        b.wf(),
        a.modulus() == b.modulus(),
        b.value() != 0,
        is_prime(a.modulus()),
    ensures
        fe_div(fe_mul(a.value(), b.value(), a.modulus()), b.value(), a.modulus()) == a.value(),
{
    lemma_fermat_little(b.value(), a.modulus());
    lemma_mul_then_div(a, b);
}

/// A power of a base congruent to the unit stays congruent to the unit.
proof fn lemma_pow_of_unit(x: int, q: nat, p: int)
    requires
        p >= 2,
        x % p == 1,
    ensures
        pow(x, q) % p == 1,
    decreases q,
{
    if q == 0 {
        lemma_pow0(x);
        lemma_small_mod(1, p as nat);
    } else {
        lemma_pow_of_unit(x, (q - 1) as nat, p);
        assert(pow(x, q) == x * pow(x, (q - 1) as nat)) by {
            lemma_pow1(x);
            lemma_pow_adds(x, 1nat, (q - 1) as nat);
        };
        lemma_mul_mod_noop_general(x, pow(x, (q - 1) as nat), p);
        lemma_small_mod(1, p as nat);
    }
}

/// Reducing the exponent modulo `p - 1` loses nothing: for a prime modulus
/// and a nonzero element, field exponentiation by a nonnegative exponent
/// returns direct modular exponentiation, by Fermat's little theorem.
pub proof fn lemma_pow_reduction(v: FieldElement, e: int)
    requires
        v.wf(),
        v.value() != 0,
        is_prime(v.modulus()),
        e >= 0,
    ensures
        fe_pow(v.value(), e, v.modulus()) == pow(v.value(), e as nat) % v.modulus(),
{
    let p = v.modulus();
    let x = v.value();
    let r = e % (p - 1);
    let q = e / (p - 1);
    let f = (p - 1) as nat;
    lemma_fundamental_div_mod(e, p - 1);
    lemma_mod_division_less_than_divisor(e, p - 1);
    lemma_div_pos_is_pos(e, p - 1);
    assert(e as nat == f * (q as nat) + r as nat) by (nonlinear_arith)
        requires
            e == (p - 1) * q + r,
            q >= 0,
            r >= 0,
            p >= 2,
            f == (p - 1) as nat,
    ;
    lemma_pow_adds(x, f * (q as nat), r as nat);
    lemma_pow_multiplies(x, f, q as nat);
    lemma_fermat_little(x, p);
    lemma_pow_of_unit(pow(x, f), q as nat, p);
    lemma_mul_mod_noop_left(pow(pow(x, f), q as nat), pow(x, r as nat), p);
}

/// The remainders of `e` and `-e` pair up: they are both zero, or they sum
/// to the divisor.
proof fn lemma_mod_opposite(e: int, m: int)
    requires
        m > 0,
    ensures
        e % m + (-e) % m == if e % m == 0 {
            0int
        } else {
            m
        },
{
    lemma_add_mod_noop(-e, e, m);
    lemma_mod_division_less_than_divisor(e, m);
    lemma_mod_division_less_than_divisor(-e, m);
    lemma_small_mod(0, m as nat);
    let s = (-e) % m + e % m;
    if s != 0 && s != m {
        if s < m {
            lemma_small_mod(s as nat, m as nat);
        } else {
            lemma_mod_add_multiples_vanish(s - m, m);
            lemma_small_mod((s - m) as nat, m as nat);
        }
        assert(false);
    }
}

/// A negative exponent means the inverse power: in a prime field, `v^e` and
/// `v^(-e)` multiply to the unit for any nonzero `v` and any exponent.
pub proof fn lemma_pow_negative(v: FieldElement, e: int)
    requires
        v.wf(),
        v.value() != 0,
        is_prime(v.modulus()),
    ensures
        fe_mul(
            fe_pow(v.value(), e, v.modulus()),
            fe_pow(v.value(), -e, v.modulus()),
            v.modulus(),
        ) == 1,
{
    let p = v.modulus();
    let x = v.value();
    let r1 = e % (p - 1);
    let r2 = (-e) % (p - 1);
    lemma_mod_opposite(e, p - 1);
    lemma_mod_division_less_than_divisor(e, p - 1);
    lemma_mod_division_less_than_divisor(-e, p - 1);
    lemma_mul_mod_noop_general(pow(x, r1 as nat), pow(x, r2 as nat), p);
    lemma_pow_adds(x, r1 as nat, r2 as nat);
    if r1 == 0 {
        lemma_pow0(x);
        lemma_small_mod(1, p as nat);
    } else {
        assert(r1 as nat + r2 as nat == (p - 1) as nat);
        lemma_fermat_little(x, p);
    }
}

} // verus!

