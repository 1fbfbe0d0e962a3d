//! Primality, and what it buys the field: Fermat's little theorem.
//!
//! The field assumes its modulus prime rather than verifying it. This module
//! says exactly what that assumption grants: for a prime `p` and any `b` with
//! `0 < b < p`, `b^(p-1) mod p == 1` — so the Fermat inverse `b^(p-2)` that
//! division multiplies by really is the multiplicative inverse. The proof is
//! the classical one: multiplication by `b` permutes the nonzero residues, so
//! the product of `b*1, ..., b*(p-1)` is, modulo `p`, both `b^(p-1)` times
//! `(p-1)!` and a rearrangement of `(p-1)!` itself; the factorial is a unit
//! and cancels.

use vstd::arithmetic::div_mod::{
    lemma_add_mod_noop, lemma_fundamental_div_mod, lemma_mod_add_multiples_vanish,
    lemma_mod_division_less_than_divisor, lemma_mod_multiples_basic, lemma_mod_self_0,
    lemma_mul_mod_noop_left, lemma_mul_mod_noop_right, lemma_small_mod, lemma_sub_mod_noop,
};
use vstd::arithmetic::power::{lemma_pow0, lemma_pow1, lemma_pow_adds, pow};
use vstd::prelude::*;
use crate::field::fermat_identity;
use vstd::set_lib::{lemma_int_range, lemma_len_subset, lemma_subset_equality, set_int_range};

verus! {

/// Whether `p` is prime: at least 2, and divisible by nothing between.
pub open spec fn is_prime(p: int) -> bool {
    p >= 2 && forall|d: int| 2 <= d < p ==> #[trigger] (p % d) != 0
}

/// Bezout's identity, by Euclid's algorithm: some positive common divisor of
/// `a` and `b` is the combination `a * x + b * y`.
proof fn lemma_bezout(a: int, b: int) -> (r: (int, int, int))
    requires
        a > 0,
        b >= 0,
    ensures
        r.0 > 0,
        r.0 == a * r.1 + b * r.2,
        a % r.0 == 0,
        b % r.0 == 0,
    decreases b,
{
    if b == 0 {
        lemma_mod_self_0(a);
        lemma_small_mod(0, a as nat);
        (a, 1, 0)
    } else {
        lemma_mod_division_less_than_divisor(a, b);
        let (g, x1, y1) = lemma_bezout(b, a % b);
        lemma_fundamental_div_mod(a, b);
        let q = a / b;
        assert(g == a * y1 + b * (x1 - q * y1)) by (nonlinear_arith)
            requires
                g == b * x1 + (a % b) * y1,
                a == b * q + a % b,
        ;
        assert((q * b) % g == 0) by {
            lemma_mul_mod_noop_right(q, b, g);
            lemma_small_mod(0, g as nat);
        };
        assert(a % g == 0) by {
            assert(q * b + a % b == a) by (nonlinear_arith)
                requires
                    a == b * q + a % b,
            ;
            lemma_add_mod_noop(q * b, a % b, g);
            lemma_small_mod(0, g as nat);
        };
        (g, y1, x1 - q * y1)
    }
}

/// A positive divisor of a prime is 1 or the prime itself.
proof fn lemma_prime_divisor(p: int, g: int)
    requires
        is_prime(p),
        g > 0,
        p % g == 0,
    ensures
        g == 1 || g == p,
{
    if g > p {
        lemma_small_mod(p as nat, g as nat);
    }
}

/// Euclid's lemma: a prime that divides a product divides one of the factors.
proof fn lemma_euclid(p: int, a: int, b: int)
    requires
        is_prime(p),
        (a * b) % p == 0,
        a % p != 0,
    ensures
        b % p == 0,
{
    let a1 = a % p;
    lemma_mod_division_less_than_divisor(a, p);
    lemma_mul_mod_noop_left(a, b, p);
    let (g, x, y) = lemma_bezout(a1, p);
    lemma_prime_divisor(p, g);
    if g == p {
        lemma_small_mod(a1 as nat, p as nat);
    }
    lemma_fundamental_div_mod(a1 * b, p);
    let k = (a1 * b) / p;
    assert(b == (k * x + b * y) * p) by (nonlinear_arith)
        requires
            1 == a1 * x + p * y,
            a1 * b == p * k,
    ;
    lemma_mod_multiples_basic(k * x + b * y, p);
}

/// In a prime field a nonzero factor cancels:
/// `b*x ≡ b*y (mod p)` implies `x ≡ y (mod p)`.
proof fn lemma_mod_cancel(p: int, b: int, x: int, y: int)
    requires
        is_prime(p),
        b % p != 0,
        (b * x) % p == (b * y) % p,
    ensures
        x % p == y % p,
{
    lemma_sub_mod_noop(b * x, b * y, p);
    lemma_small_mod(0, p as nat);
    assert(b * x - b * y == b * (x - y)) by (nonlinear_arith);
    lemma_euclid(p, b, x - y);
    lemma_sub_mod_noop(x, y, p);
    lemma_mod_division_less_than_divisor(x, p);
    lemma_mod_division_less_than_divisor(y, p);
    let d = x % p - y % p;
    if d > 0 {
        lemma_small_mod(d as nat, p as nat);
    } else if d < 0 {
        lemma_mod_add_multiples_vanish(d, p);
        lemma_small_mod((p + d) as nat, p as nat);
    }
}

/// The product of the entries of a sequence of integers.
spec fn seq_prod(s: Seq<int>) -> int
    decreases s.len(),
{
    if s.len() == 0 {
        1
    } else {
        seq_prod(s.drop_last()) * s.last()
    }
}

/// The sequence `1, 2, ..., n`; its product is the factorial of `n`.
spec fn id_seq(n: nat) -> Seq<int> {
    Seq::new(n, |k: int| k + 1)
}

/// The sequence `(b*1) mod p, ..., (b*n) mod p`: the first `n` nonzero
/// residues, each multiplied by `b` in the field.
spec fn map_seq(b: int, p: int, n: nat) -> Seq<int> {
    Seq::new(n, |k: int| (b * (k + 1)) % p)
}

/// Removing one entry divides the product by it: the product is the removed
/// entry times the product of the rest.
proof fn lemma_seq_prod_remove(s: Seq<int>, i: int)
    requires
        0 <= i < s.len(),
    ensures
        seq_prod(s) == s[i] * seq_prod(s.remove(i)),
    decreases s.len(),
{
    if i == s.len() - 1 {
        assert(s.remove(i) =~= s.drop_last());
        assert(seq_prod(s.drop_last()) * s.last() == s.last() * seq_prod(s.drop_last()))
            by (nonlinear_arith);
    } else {
        let t = s.drop_last();
        lemma_seq_prod_remove(t, i);
        s.remove_ensures(i);
        t.remove_ensures(i);
        assert(s.remove(i).drop_last() =~= t.remove(i));
        assert(s.remove(i).last() == s.last());
        assert((s[i] * seq_prod(t.remove(i))) * s.last() == s[i] * (seq_prod(t.remove(i))
            * s.last())) by (nonlinear_arith);
    }
}

/// Removing an entry cannot introduce a duplicate.
proof fn lemma_remove_keeps_distinct(s: Seq<int>, i: int)
    requires
        0 <= i < s.len(),
        s.no_duplicates(),
    ensures
        s.remove(i).no_duplicates(),
{
    s.remove_ensures(i);
}

/// A duplicate-free sequence of `n` values drawn from `{1, ..., n}` holds
/// each of them exactly once, so its product is the factorial of `n`.
proof fn lemma_perm_prod(s: Seq<int>, n: nat)
    requires
        s.len() == n,
        s.no_duplicates(),
        forall|k: int| 0 <= k < s.len() ==> 1 <= #[trigger] s[k] <= n,
    ensures
        seq_prod(s) == seq_prod(id_seq(n)),
    decreases n,
{
    if n == 0 {
        assert(s =~= id_seq(0));
    } else {
        s.unique_seq_to_set();
        lemma_int_range(1, n as int + 1);
        assert forall|v: int| s.to_set().contains(v) implies set_int_range(1, n as int + 1).contains(
            v,
        ) by {
            let idx = choose|j: int| 0 <= j < s.len() && s[j] == v;
            assert(1 <= s[idx] <= n);
        };
        lemma_len_subset(s.to_set(), set_int_range(1, n as int + 1));
        lemma_subset_equality(s.to_set(), set_int_range(1, n as int + 1));
        assert(s.to_set().contains(n as int));
        let i = s.lemma_contains_to_index(n as int);
        let s1 = s.remove(i);
        s.remove_ensures(i);
        lemma_remove_keeps_distinct(s, i);
        assert forall|k: int| 0 <= k < s1.len() implies 1 <= #[trigger] s1[k] <= n - 1 by {
            if k < i {
                assert(s1[k] == s[k]);
            } else {
                assert(s1[k] == s[k + 1]);
            }
        };
        lemma_perm_prod(s1, (n - 1) as nat);
        lemma_seq_prod_remove(s, i);
        assert(id_seq(n).drop_last() =~= id_seq((n - 1) as nat));
        assert(id_seq(n).last() == n);
        assert((n as int) * seq_prod(id_seq((n - 1) as nat)) == seq_prod(
            id_seq((n - 1) as nat),
        ) * (n as int)) by (nonlinear_arith);
    }
}

/// Modulo `p`, the product of `(b*1) mod p, ..., (b*n) mod p` is `b^n` times
/// the factorial of `n`.
proof fn lemma_mapped_prod(b: int, p: int, n: nat)
    requires
        p >= 2,
    ensures
        seq_prod(map_seq(b, p, n)) % p == (pow(b, n) * seq_prod(id_seq(n))) % p,
    decreases n,
{
    if n == 0 {
        assert(map_seq(b, p, 0) =~= id_seq(0));
        lemma_pow0(b);
    } else {
        let n1 = (n - 1) as nat;
        lemma_mapped_prod(b, p, n1);
        let ms = map_seq(b, p, n);
        let ms1 = map_seq(b, p, n1);
        let f1 = seq_prod(id_seq(n1));
        assert(ms.drop_last() =~= ms1);
        assert(id_seq(n).drop_last() =~= id_seq(n1));
        assert(ms.last() == (b * (n as int)) % p);
        lemma_mul_mod_noop_right(seq_prod(ms1), b * (n as int), p);
        lemma_mul_mod_noop_left(seq_prod(ms1), b * (n as int), p);
        lemma_mul_mod_noop_left(pow(b, n1) * f1, b * (n as int), p);
        assert(pow(b, n) == b * pow(b, n1)) by {
            lemma_pow1(b);
            lemma_pow_adds(b, 1nat, n1);
        };
        assert((pow(b, n1) * f1) * (b * (n as int)) == pow(b, n) * (f1 * (n as int)))
            by (nonlinear_arith)
            requires
                pow(b, n) == b * pow(b, n1),
        ;
        assert(seq_prod(ms) == seq_prod(ms1) * ((b * (n as int)) % p));
        assert(seq_prod(id_seq(n)) == f1 * (n as int));
    }
}

/// No factorial below `p` is divisible by the prime `p`: each is a product of
/// factors the prime does not divide.
proof fn lemma_fact_unit(p: int, n: nat)
    requires
        is_prime(p),
        n < p,
    ensures
        seq_prod(id_seq(n)) % p != 0,
    decreases n,
{
    if n == 0 {
        lemma_small_mod(1, p as nat);
    } else {
        let n1 = (n - 1) as nat;
        lemma_fact_unit(p, n1);
        assert(id_seq(n).drop_last() =~= id_seq(n1));
        if seq_prod(id_seq(n)) % p == 0 {
            lemma_euclid(p, seq_prod(id_seq(n1)), n as int);
            lemma_small_mod(n, p as nat);
            assert(false);
        }
    }
}

/// Multiplying the nonzero residues by a nonzero `b` only rearranges them:
/// the results are again distinct values of `{1, ..., p-1}`.
proof fn lemma_map_seq_distinct(b: int, p: int)
    requires
        is_prime(p),
        0 < b < p,
    ensures
        map_seq(b, p, (p - 1) as nat).no_duplicates(),
        forall|k: int|
            0 <= k < p - 1 ==> 1 <= #[trigger] map_seq(b, p, (p - 1) as nat)[k] <= p - 1,
{
    let n = (p - 1) as nat;
    let ms = map_seq(b, p, n);
    lemma_small_mod(b as nat, p as nat);
    assert forall|k: int| 0 <= k < p - 1 implies 1 <= #[trigger] ms[k] <= p - 1 by {
        lemma_mod_division_less_than_divisor(b * (k + 1), p);
        if (b * (k + 1)) % p == 0 {
            lemma_euclid(p, b, k + 1);
            lemma_small_mod((k + 1) as nat, p as nat);
            assert(false);
        }
    };
    assert forall|j: int, k: int|
        0 <= j < ms.len() && 0 <= k < ms.len() && j != k implies ms[j] != ms[k] by {
        if ms[j] == ms[k] {
            lemma_mod_cancel(p, b, j + 1, k + 1);
            lemma_small_mod((j + 1) as nat, p as nat);
            lemma_small_mod((k + 1) as nat, p as nat);
            assert(false);
        }
    };
}

/// Fermat's little theorem: in a prime field, every nonzero element raised
/// to `p - 1` is the unit. This discharges [`fermat_identity`], the
/// hypothesis under which the division laws hold.
pub proof fn lemma_fermat_little(b: int, p: int)
    requires
        is_prime(p),
        0 < b < p,
    ensures
        fermat_identity(b, p),
{
    let n = (p - 1) as nat;
    let ms = map_seq(b, p, n);
    let f = seq_prod(id_seq(n));
    lemma_map_seq_distinct(b, p);
    lemma_perm_prod(ms, n);
    lemma_mapped_prod(b, p, n);
    lemma_fact_unit(p, n);
    assert((f * pow(b, n)) % p == (f * 1) % p) by (nonlinear_arith)
        requires
            (pow(b, n) * f) % p == f % p,
    ;
    lemma_mod_cancel(p, f, pow(b, n), 1);
    lemma_small_mod(1, p as nat);
}

} // verus!
