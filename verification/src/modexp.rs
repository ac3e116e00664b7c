//! Modular exponentiation on 64-bit operands.

use vstd::arithmetic::div_mod::{lemma_mod_bound, lemma_mul_mod_noop_general, lemma_small_mod};
use vstd::arithmetic::mul::{lemma_mul_is_associative, lemma_mul_is_commutative};
use vstd::arithmetic::power::{
    lemma_pow0, lemma_pow_adds, lemma_pow1, lemma_pow_mod_noop, lemma_pow_multiplies,
    lemma_square_is_pow2, pow,
};
use vstd::prelude::*;

verus! {

/// `base` raised to `exp`, reduced modulo `m`: the value that [`power_mod`] computes.
pub open spec fn spec_power_mod(base: int, exp: nat, m: int) -> int
    recommends
        m > 0,
{
    pow(base, exp) % m
}

/// Splits off the lowest bit of a positive exponent: `b^e` is `(b*b)^(e/2)`,
/// times `b` once more when `e` is odd.
proof fn lemma_pow_halve(b: int, e: nat)
    requires
        e > 0,
    ensures
        e % 2 == 0 ==> pow(b, e) == pow(b * b, e / 2),
        e % 2 == 1 ==> pow(b, e) == b * pow(b * b, e / 2),
{
    let k: nat = e / 2;
    lemma_square_is_pow2(b);
    lemma_pow_multiplies(b, 2, k);
    assert(pow(b * b, k) == pow(b, 2 * k));
    if e % 2 == 1 {
        assert(e == 1 + 2 * k);
        lemma_pow_adds(b, 1, 2 * k);
        lemma_pow1(b);
    } else {
        assert(e == 2 * k);
    }
}

/// Reducing both the accumulator and the squared base modulo `m` does not
/// change the residue of `acc * (b*b)^k`.
proof fn lemma_reduce_step(acc: int, b: int, k: nat, m: int)
    requires
        m > 0,
    ensures
        ((acc % m) * pow((b * b) % m, k)) % m == (acc * pow(b * b, k)) % m,
{
    let sq = b * b;
    lemma_mul_mod_noop_general(acc, pow(sq % m, k), m);
    lemma_mul_mod_noop_general(acc, pow(sq, k), m);
    lemma_pow_mod_noop(sq, k, m);
}

/// Computes `base^exp mod m` by square-and-multiply.
///
/// Every product is formed in 128 bits, so no intermediate value overflows
/// even when the operands are close to `u64::MAX`. The modulus must be
/// non-zero; for `m == 1` the result is `0`.
pub fn power_mod(base: u64, exp: u64, m: u64) -> (r: u64)
    requires
        m > 0,
    ensures
        r == spec_power_mod(base as int, exp as nat, m as int),
        r < m,
        exp == 0 && m > 1 ==> r == 1,
{
    let wide_m: u128 = m as u128;
    let mut res: u128 = 1u128 % wide_m;
    let mut b: u128 = base as u128;
    let mut e: u64 = exp;
    proof {
        lemma_mul_mod_noop_general(1, pow(base as int, exp as nat), m as int);
        assert(1 * pow(base as int, exp as nat) == pow(base as int, exp as nat));
    }
    while e > 0
        invariant
            wide_m == m,
            m > 0,
            res < wide_m,
            b <= u64::MAX,
            (res * pow(b as int, e as nat)) % (m as int) == spec_power_mod(
                base as int,
                exp as nat,
                m as int,
            ),
        decreases e,
    {
        proof {
            lemma_pow_halve(b as int, e as nat);
            assert(res * b <= u64::MAX * u64::MAX) by (nonlinear_arith)
                requires
                    res <= u64::MAX,
                    b <= u64::MAX,
            ;
            assert(b * b <= u64::MAX * u64::MAX) by (nonlinear_arith)
                requires
                    b <= u64::MAX,
            ;
        }
        let ghost res0 = res as int;
        let ghost b0 = b as int;
        let ghost half: nat = (e / 2) as nat;
        if e % 2 == 1 {
            res = (res * b) % wide_m;
            proof {
                lemma_mul_is_associative(res0, b0, pow(b0 * b0, half));
                lemma_reduce_step(res0 * b0, b0, half, m as int);
            }
        } else {
            proof {
                lemma_small_mod(res0 as nat, m as nat);
                lemma_reduce_step(res0, b0, half, m as int);
            }
        }
        b = (b * b) % wide_m;
        e = e / 2;
    }
    proof {
        lemma_pow0(b as int);
        lemma_small_mod(res as nat, m as nat);
        if exp == 0 && m > 1 {
            lemma_pow0(base as int);
            lemma_small_mod(1, m as nat);
        }
    }
    res as u64
}

/// Computes `base^exp mod m` for any modulus that has residues.
///
/// Returns `None` exactly when `m` is zero.
pub fn checked_power_mod(base: u64, exp: u64, m: u64) -> (r: Option<u64>)
    ensures
        r is None <==> m == 0,
        r matches Some(value) ==> value == spec_power_mod(base as int, exp as nat, m as int),
{
    if m == 0 {
        None
    } else {
        Some(power_mod(base, exp, m))
    }
}

/// A power modulo `m` is a residue: it lies in `[0, m)`.
pub proof fn lemma_power_mod_bound(base: int, exp: nat, m: int)
    requires
        m > 0,
    ensures
        0 <= spec_power_mod(base, exp, m) < m,
{
    lemma_mod_bound(pow(base, exp), m);
}

/// Anything raised to the exponent zero is `1` modulo any modulus above `1`.
pub proof fn lemma_power_mod_zero_exponent(base: int, m: int)
    requires
        m > 1,
    ensures
        spec_power_mod(base, 0, m) == 1,
{
    lemma_pow0(base);
    lemma_small_mod(1, m as nat);
}

/// Exponents commute under the modulus: raising `g^a mod m` to `b` gives the
/// same residue as raising `g^b mod m` to `a`. This is why two peers that
/// exchange `g^a` and `g^b` arrive at one shared secret.
pub proof fn lemma_power_mod_commutes(g: int, a: nat, b: nat, m: int)
    requires
        m > 0,
    ensures
        spec_power_mod(spec_power_mod(g, a, m), b, m) == spec_power_mod(
            spec_power_mod(g, b, m),
            a,
            m,
        ),
        spec_power_mod(spec_power_mod(g, a, m), b, m) == spec_power_mod(g, a * b, m),
{
    lemma_pow_mod_noop(pow(g, a), b, m);
    lemma_pow_mod_noop(pow(g, b), a, m);
    lemma_pow_multiplies(g, a, b);
    lemma_pow_multiplies(g, b, a);
    lemma_mul_is_commutative(a as int, b as int);
}

} // verus!
