use schnorr_zkp::generate_challenge;
use schnorr_zkp::generate_commitment;
use schnorr_zkp::generate_response;
use schnorr_zkp::mod_exp;
use schnorr_zkp::verify_proof;
use schnorr_zkp::ArithmeticError;

/// Completeness: for a prime modulus, every base, secret and nonce give a
/// proof that verifies.
#[test]
fn completeness_small_prime() {
    let p: u64 = 23;
    for g in 1..p {
        for x in 0..p - 1 {
            for r in 0..p - 1 {
                let y = mod_exp(g, x, p).unwrap();
                let t = generate_commitment(g, r, p).unwrap();
                let c = generate_challenge(t, y, g, p).unwrap();
                let s = generate_response(r, c, x, p).unwrap();
                assert!(verify_proof(t, y, g, s, c, p).unwrap());
            }
        }
    }
}

#[test]
fn completeness_other_primes() {
    for p in [5u64, 7, 11, 13] {
        for g in 1..p {
            for x in 0..p - 1 {
                for r in 0..p - 1 {
                    let y = mod_exp(g, x, p).unwrap();
                    let t = generate_commitment(g, r, p).unwrap();
                    let c = generate_challenge(t, y, g, p).unwrap();
                    let s = generate_response(r, c, x, p).unwrap();
                    assert!(verify_proof(t, y, g, s, c, p).unwrap());
                }
            }
        }
    }
}

/// Soundness sensitivity: flipping any single bit of `s`, `t`, `c` or `y` of
/// a valid proof makes the verifier reject.
#[test]
fn soundness_bit_flips() {
    let (p, g, x, r) = (23u64, 5u64, 6u64, 4u64);
    let y = mod_exp(g, x, p).unwrap();
    let t = generate_commitment(g, r, p).unwrap();
    let c = generate_challenge(t, y, g, p).unwrap();
    let s = generate_response(r, c, x, p).unwrap();
    assert!(verify_proof(t, y, g, s, c, p).unwrap());
    for k in 0..64 {
        let bit = 1u64 << k;
        assert!(!verify_proof(t, y, g, s ^ bit, c, p).unwrap());
        assert!(!verify_proof(t ^ bit, y, g, s, c, p).unwrap());
        assert!(!verify_proof(t, y, g, s, c ^ bit, p).unwrap());
        assert!(!verify_proof(t, y ^ bit, g, s, c, p).unwrap());
    }
}

/// Soundness sensitivity for the base `g`: every flip rejects except where
/// the flipped base is congruent to `-g` modulo `p`, whose even power of `s`
/// is the same group element.
#[test]
fn soundness_bit_flips_of_base() {
    let (p, g, x, r) = (23u64, 5u64, 6u64, 4u64);
    let y = mod_exp(g, x, p).unwrap();
    let t = generate_commitment(g, r, p).unwrap();
    let c = generate_challenge(t, y, g, p).unwrap();
    let s = generate_response(r, c, x, p).unwrap();
    assert_eq!(s % 2, 0);
    for k in 0..64 {
        let flipped = g ^ (1u64 << k);
        if flipped % p == p - g {
            continue;
        }
        assert!(!verify_proof(t, y, flipped, s, c, p).unwrap());
    }
}

/// Determinism: the challenge depends on the transcript alone.
#[test]
fn challenge_deterministic() {
    let a = generate_challenge(4, 8, 5, 23).unwrap();
    let b = generate_challenge(4, 8, 5, 23).unwrap();
    assert_eq!(a, b);
    let a = generate_challenge(1, 2, 3, u64::MAX).unwrap();
    let b = generate_challenge(1, 2, 3, u64::MAX).unwrap();
    assert_eq!(a, b);
}

/// A challenge is always below `p - 1`, and distinct transcripts hash apart.
#[test]
fn challenge_range_and_separation() {
    for p in [2u64, 3, 23, 1000003] {
        for t in 0..5 {
            let c = generate_challenge(t, 8, 5, p).unwrap();
            assert!(c < p - 1);
        }
    }
    // the golden value below moves when any one input moves
    let base = generate_challenge(4, 8, 5, 23).unwrap();
    assert_ne!(generate_challenge(5, 8, 5, 23).unwrap(), base);
}

/// Golden challenge values: SHA-256 of the comma-separated decimal
/// transcript, first eight bytes big-endian, reduced modulo `p - 1`.
#[test]
fn challenge_golden_values() {
    // SHA-256("4,8,5,23") begins 0x3240fb451a9d5723; that value mod 22 is 5
    assert_eq!(generate_challenge(4, 8, 5, 23).unwrap(), 5);
    // SHA-256("1,2,3,11") begins 0xfcb8e1f9ddb7d3a3 == 18209744200151289507;
    // that value mod 10 is 7
    assert_eq!(generate_challenge(1, 2, 3, 11).unwrap(), 7);
}

/// Boundary convention: a zero exponent yields one (zero base included), and
/// a modulus of one yields zero.
#[test]
fn mod_exp_boundary() {
    for m in [2u64, 3, 17, 23, u64::MAX] {
        assert_eq!(mod_exp(7, 0, m).unwrap(), 1);
        assert_eq!(mod_exp(0, 0, m).unwrap(), 1);
        assert_eq!(mod_exp(u64::MAX, 0, m).unwrap(), 1);
    }
    for e in [0u64, 1, 2, 63, u64::MAX] {
        assert_eq!(mod_exp(5, e, 1).unwrap(), 0);
        assert_eq!(mod_exp(0, e, 1).unwrap(), 0);
    }
}

#[test]
fn mod_exp_small_values() {
    assert_eq!(mod_exp(5, 6, 23).unwrap(), 8);
    assert_eq!(mod_exp(5, 4, 23).unwrap(), 4);
    assert_eq!(mod_exp(2, 10, 1000).unwrap(), 24);
    assert_eq!(mod_exp(3, 3, 27).unwrap(), 0);
    assert_eq!(mod_exp(10, 1, 7).unwrap(), 3);
}

/// Overflow safety: operands near the top of the 64-bit range match an
/// arbitrary-precision reference computation.
#[test]
fn mod_exp_near_max() {
    let m = u64::MAX;
    assert_eq!(mod_exp(m - 2, m - 1, m).unwrap(), 4611686018427387904);
    assert_eq!(mod_exp(m - 1, m - 1, m).unwrap(), 1);
    assert_eq!(
        mod_exp(12345678901234567, 98765432109876543, m - 58).unwrap(),
        13902302290042407341
    );
}

/// Overflow safety of the response: `c * x` near the top of the range.
#[test]
fn response_near_max() {
    let m = u64::MAX;
    assert_eq!(generate_response(m, m, m, m).unwrap(), 2);
    assert_eq!(generate_response(0, u64::MAX, u64::MAX, 23).unwrap(), (((u64::MAX as u128) * (u64::MAX as u128)) % 22) as u64);
}

#[test]
fn response_small_values() {
    // s = (4 + 5 * 6) % 22 == 12
    assert_eq!(generate_response(4, 5, 6, 23).unwrap(), 12);
    assert_eq!(generate_response(0, 0, 0, 23).unwrap(), 0);
    assert_eq!(generate_response(21, 1, 1, 23).unwrap(), 0);
}

/// The concrete protocol round: p=23, g=5, x=6, r=4.
#[test]
fn concrete_scenario() {
    let (p, g, x, r) = (23u64, 5u64, 6u64, 4u64);
    let y = mod_exp(g, x, p).unwrap();
    assert_eq!(y, 8);
    let t = generate_commitment(g, r, p).unwrap();
    assert_eq!(t, 4);
    let c = generate_challenge(t, y, g, p).unwrap();
    assert_eq!(c, 5);
    let s = generate_response(r, c, x, p).unwrap();
    assert_eq!(s, (r + c * x) % (p - 1));
    assert_eq!(s, 12);
    assert!(verify_proof(t, y, g, s, c, p).unwrap());
}

/// The sole failure mode: a zero divisor is reported, never a wrong number
/// and never a panic.
#[test]
fn failure_scenarios() {
    assert_eq!(mod_exp(2, 3, 0), Err(ArithmeticError::DivisionByZero));
    assert_eq!(generate_commitment(5, 4, 0), Err(ArithmeticError::DivisionByZero));
    assert_eq!(generate_challenge(4, 8, 5, 0), Err(ArithmeticError::DivisionByZero));
    assert_eq!(generate_challenge(4, 8, 5, 1), Err(ArithmeticError::DivisionByZero));
    assert_eq!(generate_response(4, 5, 6, 0), Err(ArithmeticError::DivisionByZero));
    assert_eq!(generate_response(4, 5, 6, 1), Err(ArithmeticError::DivisionByZero));
    assert_eq!(verify_proof(4, 8, 5, 12, 5, 0), Err(ArithmeticError::DivisionByZero));
    assert_eq!(verify_proof(4, 8, 5, 12, 5, 1), Err(ArithmeticError::DivisionByZero));
}

/// A rejected proof is an `Ok(false)`, not an error.
#[test]
fn verify_rejects_wrong_response() {
    assert_eq!(verify_proof(4, 8, 5, 13, 5, 23), Ok(false));
    assert_eq!(verify_proof(4, 8, 5, 12, 5, 23), Ok(true));
}
