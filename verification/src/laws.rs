//! Protocol-level laws: completeness of an honestly computed proof, and the
//! boundary behaviour of modular exponentiation.

use vstd::prelude::*;

verus! {

use vstd::arithmetic::power::pow;
use vstd::arithmetic::power::lemma_pow0;
use vstd::arithmetic::power::lemma1_pow;
use vstd::arithmetic::power::lemma_pow_adds;
use vstd::arithmetic::power::lemma_pow_multiplies;
use vstd::arithmetic::power::lemma_pow_mod_noop;
use vstd::arithmetic::div_mod::lemma_fundamental_div_mod;
use vstd::arithmetic::div_mod::lemma_mod_division_less_than_divisor;
use vstd::arithmetic::div_mod::lemma_mul_mod_noop_left;
use vstd::arithmetic::div_mod::lemma_mul_mod_noop_right;
use vstd::arithmetic::div_mod::lemma_small_mod;
use vstd::arithmetic::mul::lemma_mul_is_commutative;
use crate::spec_verifies;

/// When `g^q ≡ 1 (mod p)`, exponents of `g` may be reduced modulo `q`:
/// `g^a ≡ g^(a % q) (mod p)`.
pub proof fn lemma_pow_mod_cycle(g: int, a: nat, q: nat, p: int)
    requires
        p > 1,
        q > 0,
        pow(g, q) % p == 1,
    ensures
        pow(g, a) % p == pow(g, a % q) % p,
{
    let k: nat = a / q;
    let rem: nat = a % q;
    lemma_fundamental_div_mod(a as int, q as int);
    assert(a == q * k + rem);
    lemma_pow_adds(g, (q * k) as nat, rem);
    lemma_pow_multiplies(g, q, k);
    lemma_mul_mod_noop_left(pow(pow(g, q), k), pow(g, rem), p);
    lemma_pow_mod_noop(pow(g, q), k, p);
    lemma1_pow(k);
    lemma_small_mod(1, p as nat);
    assert(pow(pow(g, q), k) % p == 1);
    assert(pow(g, a) % p == (1 * pow(g, rem)) % p);
}

/// Completeness of the protocol: an honestly computed proof always verifies.
/// With `y = g^x % p` the public value, `t = g^r % p` the commitment, `c` any
/// challenge, and `s = (r + c·x) % (p−1)` the response, the verification
/// equation `g^s % p == (t · y^c) % p` holds. The hypothesis
/// `g^(p−1) ≡ 1 (mod p)` is exactly what a prime modulus `p` and a generator
/// `g` of its multiplicative group guarantee (Fermat's little theorem); this
/// core checks neither, so the guarantee stands as the precondition.
pub proof fn lemma_completeness(g: u64, x: u64, r: u64, c: u64, p: u64, y: u64, t: u64, s: u64)
    requires
        p > 1,
        pow(g as int, (p - 1) as nat) % (p as int) == 1,
        y as int == pow(g as int, x as nat) % (p as int),
        t as int == pow(g as int, r as nat) % (p as int),
        s as int == (r as int + c as int * x as int) % (p - 1 as int),
    ensures
        spec_verifies(t, y, g, s, c, p),
{
    let gi = g as int;
    let pi = p as int;
    let q: nat = (p - 1) as nat;
    lemma_mul_is_commutative(c as int, x as int);
    let e: nat = (r as nat + x as nat * c as nat) as nat;
    // the left-hand side: g^s ≡ g^(r + c·x) (mod p)
    assert(s as nat == e % q);
    lemma_pow_mod_cycle(gi, e, q, pi);
    assert(pow(gi, s as nat) % pi == pow(gi, e) % pi);
    // the right-hand side: t · y^c ≡ g^r · g^(x·c) ≡ g^(r + c·x) (mod p)
    lemma_mul_mod_noop_right(t as int, pow(y as int, c as nat), pi);
    lemma_pow_mod_noop(pow(gi, x as nat), c as nat, pi);
    lemma_pow_multiplies(gi, x as nat, c as nat);
    assert(pow(y as int, c as nat) % pi == pow(gi, (x as nat * c as nat) as nat) % pi);
    lemma_mul_mod_noop_right(t as int, pow(gi, (x as nat * c as nat) as nat), pi);
    lemma_mul_mod_noop_left(pow(gi, r as nat), pow(gi, (x as nat * c as nat) as nat), pi);
    lemma_pow_adds(gi, r as nat, (x as nat * c as nat) as nat);
    assert((t as int * pow(y as int, c as nat)) % pi == pow(gi, e) % pi);
}

/// Determinism of the challenge: any two results that meet the contract of
/// `generate_challenge` on one and the same transcript `(t, y, g, p)` are
/// equal, so a prover and a verifier derive the challenge independently and
/// agree on it.
pub proof fn lemma_challenge_deterministic(
    first: Result<u64, crate::ArithmeticError>,
    second: Result<u64, crate::ArithmeticError>,
    t: u64,
    y: u64,
    g: u64,
    p: u64,
)
    requires
        p > 1,
        first == Ok::<u64, crate::ArithmeticError>((crate::spec_challenge(t, y, g, p) as u64)),
        second == Ok::<u64, crate::ArithmeticError>((crate::spec_challenge(t, y, g, p) as u64)),
    ensures
        first == second,
{
}

/// Boundary behaviour of modular exponentiation: a zero exponent yields
/// `1 % modulus` (so `1` once `modulus > 1`, whatever the base, zero
/// included), and a modulus of one yields `0` whatever the base and exponent.
pub proof fn lemma_mod_exp_boundary(base: u64, exp: u64, modulus: u64)
    requires
        modulus >= 1,
    ensures
        modulus > 1 ==> pow(base as int, 0) % (modulus as int) == 1,
        modulus == 1 ==> pow(base as int, exp as nat) % (modulus as int) == 0,
{
    lemma_pow0(base as int);
    if modulus > 1 {
        lemma_small_mod(1, modulus as nat);
    }
    if modulus == 1 {
        lemma_mod_division_less_than_divisor(pow(base as int, exp as nat), 1);
    }
}

} // verus!
