//! Arithmetic core of a Schnorr-style zero-knowledge proof of knowledge of a
//! discrete logarithm: modular exponentiation, commitment generation,
//! challenge derivation (Fiat-Shamir), response computation, and verification.

use vstd::prelude::*;

pub mod encoding;
pub mod laws;

verus! {

use vstd::arithmetic::power::pow;
use vstd::arithmetic::power::lemma_pow0;
use vstd::arithmetic::power::lemma_pow1;
use vstd::arithmetic::power::lemma_pow_adds;
use vstd::arithmetic::power::lemma_pow_multiplies;
use vstd::arithmetic::power::lemma_pow_mod_noop;
use vstd::arithmetic::power::lemma_square_is_pow2;
use vstd::arithmetic::div_mod::lemma_mul_mod_noop_left;
use vstd::arithmetic::div_mod::lemma_mul_mod_noop_right;
use vstd::arithmetic::div_mod::lemma_small_mod;
use vstd::arithmetic::mul::lemma_mul_is_associative;
use vstd::arithmetic::mul::lemma_mul_upper_bound;
use crate::encoding::be_bytes;
use crate::encoding::be_u64_prefix;
use crate::encoding::transcript;
use crate::encoding::transcript_bytes;

/// The sole failure mode of this crate: a modulus of zero (or a modulus from
/// which one is subtracted before dividing, making the divisor zero).
#[derive(Clone, Copy, Debug, PartialEq, Eq, Structural)]
pub enum ArithmeticError {
    DivisionByZero,
}

/// Computes `base^exp % modulus` by binary (square-and-multiply)
/// exponentiation, widening every intermediate product to 128 bits so that no
/// multiplication can wrap. Fails exactly when `modulus == 0`.
pub fn mod_exp(base: u64, exp: u64, modulus: u64) -> (res: Result<u64, ArithmeticError>)
    ensures
        modulus == 0 ==> res == Err::<u64, ArithmeticError>(ArithmeticError::DivisionByZero),
        modulus >= 1 ==> res == Ok::<u64, ArithmeticError>(
            ((pow(base as int, exp as nat) % (modulus as int)) as u64),
        ),
{
    if modulus == 0 {
        return Err(ArithmeticError::DivisionByZero);
    }
    let m: u128 = modulus as u128;
    let mut result: u128 = 1 % m;
    let mut b: u128 = (base as u128) % m;
    let mut e: u64 = exp;
    proof {
        lemma_pow_mod_noop(base as int, exp as nat, m as int);
        lemma_mul_mod_noop_left(1, pow((base as int) % (m as int), exp as nat), m as int);
    }
    while e > 0
        invariant
            1 <= m <= u64::MAX as u128,
            result < m,
            b < m,
            (result as int * pow(b as int, e as nat)) % (m as int)
                == pow(base as int, exp as nat) % (m as int),
        decreases e,
    {
        let ghost r0: int = result as int;
        let ghost b0: int = b as int;
        let ghost e0: nat = e as nat;
        let ghost mi: int = m as int;
        let ghost half: nat = (e0 / 2) as nat;
        proof {
            // pow(b0, e0) in terms of pow(b0 * b0, e0 / 2)
            lemma_square_is_pow2(b0);
            lemma_pow_multiplies(b0, 2, half);
            if e0 % 2 == 1 {
                lemma_pow_adds(b0, 1, (2 * half) as nat);
                lemma_pow1(b0);
                assert(pow(b0, e0) == b0 * pow(b0 * b0, half));
            } else {
                assert(pow(b0, e0) == pow(b0 * b0, half));
            }
            // replacing b0 * b0 by its reduction under the outer modulus
            lemma_pow_mod_noop(b0 * b0, half, mi);
            // the 128-bit products cannot wrap
            lemma_mul_upper_bound(result as int, u64::MAX as int, b as int, u64::MAX as int);
            lemma_mul_upper_bound(b as int, u64::MAX as int, b as int, u64::MAX as int);
        }
        if e % 2 == 1 {
            result = (result * b) % m;
            proof {
                let rb: int = r0 * b0;
                lemma_mul_mod_noop_left(rb, pow((b0 * b0) % mi, half), mi);
                lemma_mul_mod_noop_right(rb, pow((b0 * b0) % mi, half), mi);
                lemma_mul_mod_noop_right(rb, pow(b0 * b0, half), mi);
                lemma_mul_is_associative(r0, b0, pow(b0 * b0, half));
                assert((result as int * pow(((b0 * b0) % mi), half)) % mi
                    == (r0 * pow(b0, e0)) % mi);
            }
        } else {
            proof {
                lemma_mul_mod_noop_right(r0, pow((b0 * b0) % mi, half), mi);
                lemma_mul_mod_noop_right(r0, pow(b0 * b0, half), mi);
                assert((r0 * pow(((b0 * b0) % mi), half)) % mi == (r0 * pow(b0, e0)) % mi);
            }
        }
        e = e / 2;
        b = (b * b) % m;
    }
    proof {
        lemma_pow0(b as int);
        lemma_small_mod(result as nat, m as nat);
    }
    Ok(result as u64)
}

/// Produces the prover's commitment `t = g^r % p` from the ephemeral nonce
/// `r`. Fails exactly when `p == 0`.
pub fn generate_commitment(g: u64, r: u64, p: u64) -> (res: Result<u64, ArithmeticError>)
    ensures
        p == 0 ==> res == Err::<u64, ArithmeticError>(ArithmeticError::DivisionByZero),
        p >= 1 ==> res == Ok::<u64, ArithmeticError>(
            ((pow(g as int, r as nat) % (p as int)) as u64),
        ),
{
    mod_exp(g, r, p)
}

/// Computes the prover's response `s = (r + c * x) % (p - 1)`, widening the
/// product to 128 bits so that `c * x` cannot wrap. Fails exactly when
/// `p <= 1`, since the divisor `p - 1` would be zero.
pub fn generate_response(r: u64, c: u64, x: u64, p: u64) -> (res: Result<u64, ArithmeticError>)
    ensures
        p <= 1 ==> res == Err::<u64, ArithmeticError>(ArithmeticError::DivisionByZero),
        p > 1 ==> res == Ok::<u64, ArithmeticError>(
            (((r as int + c as int * x as int) % (p - 1 as int)) as u64),
        ),
{
    if p <= 1 {
        return Err(ArithmeticError::DivisionByZero);
    }
    proof {
        lemma_mul_upper_bound(c as int, u64::MAX as int, x as int, u64::MAX as int);
    }
    let q: u128 = (p - 1) as u128;
    let s: u128 = ((r as u128) + (c as u128) * (x as u128)) % q;
    Ok(s as u64)
}

/// What SHA-256 returns on the given bytes: fixed by the input alone.
pub uninterp spec fn sha256_of(bytes: Seq<u8>) -> Seq<u8>;

/// Relies on `sha2::Sha256::digest`: a 32-byte (256-bit) digest that is a
/// function of the input bytes alone.
#[verifier::external_body]
fn sha256(bytes: &Vec<u8>) -> (r: Vec<u8>)
    ensures
        r@ == sha256_of(bytes@),
        r@.len() == 32,
{
    <sha2::Sha256 as sha2::Digest>::digest(bytes.as_slice()).to_vec()
}

/// The challenge derived from the public transcript `(t, y, g, p)`: the first
/// eight digest bytes read big-endian, reduced modulo `p - 1`.
pub open spec fn spec_challenge(t: u64, y: u64, g: u64, p: u64) -> nat
    recommends
        p > 1,
{
    be_bytes(sha256_of(transcript_bytes(t, y, g, p)).take(8)) % ((p - 1) as nat)
}

/// Derives the challenge `c` by the Fiat-Shamir heuristic: hash the decimal
/// transcript `"t,y,g,p"` with SHA-256, read the first eight digest bytes as
/// a big-endian integer, and reduce modulo `p - 1`. Deterministic in its
/// arguments; fails exactly when `p <= 1`, since the divisor `p - 1` would be
/// zero.
pub fn generate_challenge(t: u64, y: u64, g: u64, p: u64) -> (res: Result<u64, ArithmeticError>)
    ensures
        p <= 1 ==> res == Err::<u64, ArithmeticError>(ArithmeticError::DivisionByZero),
        p > 1 ==> res == Ok::<u64, ArithmeticError>((spec_challenge(t, y, g, p) as u64)),
{
    if p <= 1 {
        return Err(ArithmeticError::DivisionByZero);
    }
    let msg = transcript(t, y, g, p);
    let digest = sha256(&msg);
    let v = be_u64_prefix(&digest);
    Ok(v % (p - 1))
}

/// The equation a proof must satisfy: `g^s % p == (t * y^c) % p`.
pub open spec fn spec_verifies(t: u64, y: u64, g: u64, s: u64, c: u64, p: u64) -> bool {
    pow(g as int, s as nat) % (p as int) == ((t as int) * pow(y as int, c as nat)) % (p as int)
}

/// Checks the proof equation `g^s % p == (t * y^c) % p`, widening the product
/// on the right-hand side to 128 bits so it cannot wrap. Fails exactly when
/// `p <= 1`.
pub fn verify_proof(t: u64, y: u64, g: u64, s: u64, c: u64, p: u64) -> (res: Result<
    bool,
    ArithmeticError,
>)
    ensures
        p <= 1 ==> res == Err::<bool, ArithmeticError>(ArithmeticError::DivisionByZero),
        p > 1 ==> res == Ok::<bool, ArithmeticError>(spec_verifies(t, y, g, s, c, p)),
{
    if p <= 1 {
        return Err(ArithmeticError::DivisionByZero);
    }
    let left = match mod_exp(g, s, p) {
        Ok(v) => v,
        Err(e) => {
            return Err(e);
        },
    };
    let y_to_c = match mod_exp(y, c, p) {
        Ok(v) => v,
        Err(e) => {
            return Err(e);
        },
    };
    proof {
        lemma_mul_upper_bound(t as int, u64::MAX as int, y_to_c as int, u64::MAX as int);
        lemma_mul_mod_noop_right(t as int, pow(y as int, c as nat), p as int);
    }
    let right: u64 = (((t as u128) * (y_to_c as u128)) % (p as u128)) as u64;
    Ok(left == right)
}

} // verus!
