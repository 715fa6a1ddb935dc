//! The instant of a digest: the digest read as a binary fraction of a day.
//!
//! The first bit of the digest stands for half a day, the next one for a
//! quarter, and so on through all 256 bits. The fraction is below one, so the
//! instant lies within the day. It is cut down to whole nanoseconds.

use vstd::prelude::*;
use vstd::arithmetic::div_mod::{lemma_div_denominator, lemma_div_multiples_vanish_fancy, lemma_fundamental_div_mod};
use vstd::arithmetic::power2::{lemma2_to64, pow2};
use crate::calendar::NANOS_PER_DAY;
use crate::hash::{be_value, lemma_be_value_bound, lemma_pow2_next_byte};

verus! {

/// The nanoseconds after midnight that a digest stands for: the share
/// `be_value(hash) / 2^bits` of a day, rounded down.
pub open spec fn day_offset(hash: Seq<u8>) -> nat {
    (be_value(hash) * NANOS_PER_DAY as nat) / pow2(8 * hash.len())
}

/// An instant lies within its day.
pub proof fn lemma_day_offset_bound(hash: Seq<u8>)
    ensures
        day_offset(hash) < NANOS_PER_DAY,
{
    lemma_be_value_bound(hash);
    let v = be_value(hash) as int;
    let p = pow2(8 * hash.len()) as int;
    let m = NANOS_PER_DAY as int;
    assert(v * m / p < m) by (nonlinear_arith)
        requires
            0 <= v < p,
            0 < m,
    ;
}

/// One byte more in front: the quotient by the larger power comes from the
/// quotient by the smaller one.
proof fn lemma_carry(byte: nat, rest: nat, p: nat, m: nat)
    requires
        p > 0,
    ensures
        ((byte * p + rest) * m) / (256 * p) == (byte * m + (rest * m) / p) / 256,
{
    let x = (rest * m) as int;
    let q = x / (p as int);
    let r = x % (p as int);
    let a = (byte * m) as int;
    lemma_fundamental_div_mod(x, p as int);
    assert(((byte * p + rest) * m) as int == (p as int) * (a + q) + r) by (nonlinear_arith)
        requires
            x == rest * m,
            a == byte * m,
            x == (p as int) * q + r,
    ;
    assert(0 <= r < p);
    lemma_div_multiples_vanish_fancy(a + q, r, p as int);
    lemma_div_denominator(((byte * p + rest) * m) as int, p as int, 256);
    assert((p as int) * 256 == 256 * p);
}

/// The nanoseconds after midnight that a digest stands for. The bytes are
/// taken from the last to the first, so that no bit is lost to rounding.
pub fn resolve(hash: &[u8; 32]) -> (nanos: u64)
    ensures
        nanos == day_offset(hash@),
        nanos < NANOS_PER_DAY,
{
    let mut carry: u64 = 0;
    let mut i: usize = 32;
    proof {
        lemma2_to64();
        assert(hash@.skip(32).len() == 0);
    }
    while i > 0
        invariant
            i <= 32,
            carry < NANOS_PER_DAY,
            carry == (be_value(hash@.skip(i as int)) * NANOS_PER_DAY as nat) / pow2(
                (8 * (32 - i)) as nat,
            ),
        decreases i,
    {
        i -= 1;
        proof {
            let tail = hash@.skip(i as int);
            let rest = hash@.skip(i + 1);
            assert(tail.skip(1) == rest);
            assert(tail[0] == hash@[i as int]);
            lemma_pow2_next_byte(rest.len());
            lemma_carry(
                hash@[i as int] as nat,
                be_value(rest),
                pow2(8 * rest.len()),
                NANOS_PER_DAY as nat,
            );
            lemma_day_offset_bound(tail);
        }
        carry = (hash[i] as u64 * NANOS_PER_DAY + carry) / 256;
    }
    assert(hash@.skip(0) == hash@);
    carry
}

} // verus!
