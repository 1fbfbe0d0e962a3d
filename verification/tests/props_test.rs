use ecc::{modulus, ECCError, FieldElement};
use num_bigint::BigInt;

fn fe(v: i64, p: u64) -> FieldElement {
    FieldElement::new(BigInt::from(v), BigInt::from(p)).unwrap()
}

/// The modulo helper wraps a negative dividend around, unlike the truncating
/// remainder.
#[test]
fn test_modulus_wraps_negative() {
    let r = modulus(&BigInt::from(-2), &BigInt::from(19_u32));
    assert_eq!(r, BigInt::from(17_u32));
}

/// The modulo helper reduces into `[0, b)` and keeps small values unchanged.
#[test]
fn test_modulus_reduces() {
    assert_eq!(modulus(&BigInt::from(40_u32), &BigInt::from(19_u32)), BigInt::from(2_u32));
    assert_eq!(modulus(&BigInt::from(5_u32), &BigInt::from(19_u32)), BigInt::from(5_u32));
    assert_eq!(modulus(&BigInt::from(-19), &BigInt::from(19_u32)), BigInt::from(0_u32));
}

/// A canonical value round-trips through the constructor unchanged, and a
/// second construction from the same value is equal to the first.
#[test]
fn test_new_roundtrip_idempotent() {
    let fe_1 = fe(5, 19);
    assert_eq!(fe_1.num, BigInt::from(5_u32));
    assert_eq!(fe_1.prime, BigInt::from(19_u32));
    let fe_2 = FieldElement::new(fe_1.num.clone(), fe_1.prime.clone()).unwrap();
    assert_eq!(fe_1, fe_2);
}

/// A value at or above the modulus is rejected with a ValueError.
#[test]
fn test_new_rejects_value_at_modulus() {
    let r = FieldElement::new(BigInt::from(19_u32), BigInt::from(19_u32));
    assert!(matches!(r, Err(ECCError::ValueError(_))));
    let r = FieldElement::new(BigInt::from(24110_u32), BigInt::from(24109_u32));
    assert!(matches!(r, Err(ECCError::ValueError(_))));
}

/// A negative value is rejected with a ValueError.
#[test]
fn test_new_rejects_negative_value() {
    let r = FieldElement::new(BigInt::from(-1), BigInt::from(19_u32));
    assert!(matches!(r, Err(ECCError::ValueError(_))));
}

/// Adding an element and then subtracting it gives the first operand back.
#[test]
fn test_add_then_sub_returns_original() {
    let sum = fe(9, 19).add(fe(13, 19)).unwrap();
    assert_eq!(sum, fe(3, 19));
    let back = sum.sub(fe(13, 19)).unwrap();
    assert_eq!(back, fe(9, 19));
}

/// Multiplying by an element and then dividing by it gives the first operand
/// back.
#[test]
fn test_mul_then_div_returns_original() {
    let prod = fe(9, 19).mul(fe(13, 19)).unwrap();
    assert_eq!(prod, fe(3, 19));
    let back = prod.div(fe(13, 19)).unwrap();
    assert_eq!(back, fe(9, 19));
}

/// Addition and multiplication are commutative.
#[test]
fn test_add_mul_commute() {
    assert_eq!(fe(9, 19).add(fe(13, 19)).unwrap(), fe(13, 19).add(fe(9, 19)).unwrap());
    assert_eq!(fe(9, 19).mul(fe(13, 19)).unwrap(), fe(13, 19).mul(fe(9, 19)).unwrap());
}

/// Addition and multiplication are associative.
#[test]
fn test_add_mul_associate() {
    let left = fe(9, 19).add(fe(13, 19)).unwrap().add(fe(17, 19)).unwrap();
    let right = fe(9, 19).add(fe(13, 19).add(fe(17, 19)).unwrap()).unwrap();
    assert_eq!(left, right);
    let left = fe(9, 19).mul(fe(13, 19)).unwrap().mul(fe(17, 19)).unwrap();
    let right = fe(9, 19).mul(fe(13, 19).mul(fe(17, 19)).unwrap()).unwrap();
    assert_eq!(left, right);
}

/// Subtraction wraps around instead of going negative: 5 - 7 is 17 mod 19.
#[test]
fn test_sub_wraps_negative() {
    let diff = fe(5, 19).sub(fe(7, 19)).unwrap();
    assert_eq!(diff, fe(17, 19));
}

/// Division is multiplication by the Fermat inverse: 5 / 17 is 7 mod 19,
/// since 17 * 7 mod 19 is 5.
#[test]
fn test_div_is_fermat_inverse() {
    let q = fe(5, 19).div(fe(17, 19)).unwrap();
    assert_eq!(q, fe(7, 19));
    assert_eq!(fe(17, 19).mul(fe(7, 19)).unwrap(), fe(5, 19));
}

/// A negative exponent means the inverse power: 5^(-5) mod 7 equals the
/// fifth power of the inverse of 5, which is 3^5 mod 7.
#[test]
fn test_pow_negative_exponent() {
    let r = fe(5, 7).pow(BigInt::from(-5)).unwrap();
    let direct = fe(3, 7).pow(BigInt::from(5_u32)).unwrap();
    assert_eq!(r, direct);
    assert_eq!(r, fe(5, 7));
    // The negative power is the inverse of the positive one.
    let pos = fe(5, 7).pow(BigInt::from(5_u32)).unwrap();
    assert_eq!(r.mul(pos).unwrap(), fe(1, 7));
}

/// Every operation on elements of different fields fails with a TypeError.
#[test]
fn test_mismatched_moduli_always_type_error() {
    assert!(matches!(fe(5, 19).add(fe(5, 17)), Err(ECCError::TypeError(_))));
    assert!(matches!(fe(5, 19).sub(fe(5, 17)), Err(ECCError::TypeError(_))));
    assert!(matches!(fe(5, 19).mul(fe(5, 17)), Err(ECCError::TypeError(_))));
    assert!(matches!(fe(5, 19).div(fe(5, 17)), Err(ECCError::TypeError(_))));
}

/// Dividing by the zero element fails with a ValueError.
#[test]
fn test_div_by_zero_element() {
    let r = fe(5, 19).div(fe(0, 19));
    assert!(matches!(r, Err(ECCError::ValueError(_))));
}

/// Raising the zero element to a negative exponent is the undefined inverse
/// of zero and fails with a ValueError; nonnegative exponents stay defined.
#[test]
fn test_pow_zero_element() {
    let r = fe(0, 19).pow(BigInt::from(-1));
    assert!(matches!(r, Err(ECCError::ValueError(_))));
    assert_eq!(fe(0, 19).pow(BigInt::from(5_u32)).unwrap(), fe(0, 19));
    assert_eq!(fe(0, 19).pow(BigInt::from(0_u32)).unwrap(), fe(1, 19));
}

/// Exponentiation reduces the exponent modulo `modulus - 1`.
#[test]
fn test_pow_reduces_exponent() {
    let r = fe(5, 19).pow(BigInt::from(500_u32)).unwrap();
    let direct = fe(5, 19).pow(BigInt::from(500_u32 % 18)).unwrap();
    assert_eq!(r, direct);
    assert_eq!(r, fe(9, 19));
}

/// No operation changes an element's modulus.
#[test]
fn test_operations_keep_modulus() {
    let results = [
        fe(5, 19).add(fe(7, 19)).unwrap(),
        fe(5, 19).sub(fe(7, 19)).unwrap(),
        fe(5, 19).mul(fe(7, 19)).unwrap(),
        fe(5, 19).div(fe(7, 19)).unwrap(),
        fe(5, 19).pow(BigInt::from(3_u32)).unwrap(),
    ];
    for r in results {
        assert_eq!(r.prime, BigInt::from(19_u32));
    }
}
