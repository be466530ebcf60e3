//! Byte-level encoding for the Fiat-Shamir transcript: decimal rendering of
//! the public values, the comma-separated transcript itself, and the
//! big-endian reading of a digest prefix.

use vstd::prelude::*;

verus! {

use vstd::arithmetic::power2::pow2;
use vstd::arithmetic::power2::lemma_pow2_adds;
use vstd::arithmetic::power2::lemma_pow2_strictly_increases;
use vstd::arithmetic::power2::lemma2_to64;
use vstd::arithmetic::power2::lemma2_to64_rest;

/// The ASCII decimal digits of `n`, most significant first, with no padding
/// and no sign.
pub open spec fn dec_digits(n: nat) -> Seq<u8>
    decreases n,
{
    if n < 10 {
        seq![(48 + n) as u8]
    } else {
        dec_digits(n / 10) + seq![(48 + n % 10) as u8]
    }
}

/// Appends the ASCII decimal digits of `n` to `out`.
pub fn push_decimal(out: &mut Vec<u8>, n: u64)
    ensures
        final(out)@ == old(out)@ + dec_digits(n as nat),
    decreases n,
{
    if n < 10 {
        out.push(48 + n as u8);
        assert(out@ =~= old(out)@ + dec_digits(n as nat));
    } else {
        push_decimal(out, n / 10);
        out.push(48 + (n % 10) as u8);
        assert(out@ =~= old(out)@ + dec_digits(n as nat));
    }
}

/// The bytes hashed for the challenge: the decimal representations of `t`,
/// `y`, `g`, `p`, in that order, separated by commas (ASCII 44).
pub open spec fn transcript_bytes(t: u64, y: u64, g: u64, p: u64) -> Seq<u8> {
    dec_digits(t as nat) + seq![44u8] + dec_digits(y as nat) + seq![44u8] + dec_digits(g as nat)
        + seq![44u8] + dec_digits(p as nat)
}

/// Builds the transcript `"t,y,g,p"` as bytes.
pub fn transcript(t: u64, y: u64, g: u64, p: u64) -> (out: Vec<u8>)
    ensures
        out@ == transcript_bytes(t, y, g, p),
{
    let mut out: Vec<u8> = Vec::new();
    push_decimal(&mut out, t);
    out.push(44);
    push_decimal(&mut out, y);
    out.push(44);
    push_decimal(&mut out, g);
    out.push(44);
    push_decimal(&mut out, p);
    assert(out@ =~= transcript_bytes(t, y, g, p));
    out
}

/// The value of `s` read as a big-endian base-256 integer.
pub open spec fn be_bytes(s: Seq<u8>) -> nat
    decreases s.len(),
{
    if s.len() == 0 {
        0
    } else {
        be_bytes(s.drop_last()) * 256 + (s.last() as nat)
    }
}

/// Reads the first eight bytes of `bytes` as a big-endian unsigned 64-bit
/// integer.
pub fn be_u64_prefix(bytes: &Vec<u8>) -> (r: u64)
    requires
        bytes@.len() >= 8,
    ensures
        r as nat == be_bytes(bytes@.take(8)),
{
    let mut acc: u64 = 0;
    let mut i: usize = 0;
    proof {
        lemma2_to64();
    }
    while i < 8
        invariant
            bytes@.len() >= 8,
            i <= 8,
            acc as nat == be_bytes(bytes@.take(i as int)),
            (acc as nat) < pow2((8 * i) as nat),
        decreases 8 - i,
    {
        proof {
            lemma2_to64();
            lemma2_to64_rest();
            lemma_pow2_adds((8 * i) as nat, 8);
            if 8 * i + 8 < 64 {
                lemma_pow2_strictly_increases((8 * i + 8) as nat, 64);
            }
            assert(bytes@.take(i as int + 1).drop_last() =~= bytes@.take(i as int));
            assert(bytes@.take(i as int + 1).last() == bytes@[i as int]);
        }
        acc = acc * 256 + (bytes[i] as u64);
        i = i + 1;
    }
    acc
}

} // verus!
