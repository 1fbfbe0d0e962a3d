//! Finite-field arithmetic for elliptic-curve cryptography.
//!
//! A [`FieldElement`] is a canonical residue paired with its (assumed prime)
//! modulus; arithmetic reduces with floor-style modulo, and division goes
//! through the Fermat inverse. A [`Point`] is a point on a short Weierstrass
//! curve `y^2 = x^3 + a*x + b`, or the point at infinity; membership is
//! checked once, at construction.

pub mod bigint;
pub mod curve;
pub mod field;
pub mod primes;

pub use curve::Point;
pub use field::modulus;
pub use field::ECCError;
pub use field::FieldElement;
