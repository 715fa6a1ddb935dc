//! The level of a digest: the number of its leading zero bits.

use vstd::prelude::*;
use vstd::arithmetic::power2::{lemma2_to64, lemma_pow2_adds, lemma_pow2_strictly_increases, pow2};
use vstd::std_specs::bits::{axiom_u8_leading_zeros, u8_leading_zeros};
use crate::hash::{be_value, lemma_be_value_bound, lemma_pow2_next_byte};

verus! {

/// Number of zero bits of a byte before its first one bit; 8 for the zero byte.
pub open spec fn byte_leading_zeros(byte: u8) -> nat {
    if byte >= 128 {
        0
    } else if byte >= 64 {
        1
    } else if byte >= 32 {
        2
    } else if byte >= 16 {
        3
    } else if byte >= 8 {
        4
    } else if byte >= 4 {
        5
    } else if byte >= 2 {
        6
    } else if byte >= 1 {
        7
    } else {
        8
    }
}

/// Number of zero bits of a byte sequence before its first one bit, read from
/// the first byte on and in each byte from the highest bit on. Where every bit
/// is zero, it is the number of bits.
pub open spec fn leading_zero_bits(bytes: Seq<u8>) -> nat
    decreases bytes.len(),
{
    if bytes.len() == 0 {
        0
    } else if bytes[0] == 0 {
        8 + leading_zero_bits(bytes.skip(1))
    } else {
        byte_leading_zeros(bytes[0])
    }
}

/// The count that `u8::leading_zeros` returns is `byte_leading_zeros`.
proof fn lemma_byte_leading_zeros(byte: u8)
    ensures
        u8_leading_zeros(byte) == byte_leading_zeros(byte),
{
    axiom_u8_leading_zeros(byte);
    let zeros = u8_leading_zeros(byte) as u8;
    let below: u8 = if zeros < 8 {
        (7 - zeros) as u8
    } else {
        0
    };
    let first: u8 = (8 - zeros) as u8;
    assert(zeros <= 8 && first == 8 - zeros && (byte >> first) == 0u8 && (zeros < 8 ==> below == 7
        - zeros && (byte >> below) & 1u8 != 0u8) ==> (zeros == 0 <==> byte >= 128) && (zeros == 1
        <==> 64 <= byte < 128) && (zeros == 2 <==> 32 <= byte < 64) && (zeros == 3 <==> 16 <= byte
        < 32) && (zeros == 4 <==> 8 <= byte < 16) && (zeros == 5 <==> 4 <= byte < 8) && (zeros == 6
        <==> 2 <= byte < 4) && (zeros == 7 <==> byte == 1) && (zeros == 8 <==> byte == 0))
        by (bit_vector);
}

/// A level is at most the number of bits.
pub proof fn lemma_level_bound(bytes: Seq<u8>)
    ensures
        leading_zero_bits(bytes) <= 8 * bytes.len(),
    decreases bytes.len(),
{
    if bytes.len() > 0 && bytes[0] == 0 {
        lemma_level_bound(bytes.skip(1));
    }
}

/// Only a sequence of zero bytes has as many leading zero bits as it has bits:
/// of 32-byte digests, the zero digest alone has level 256.
pub proof fn lemma_full_level_is_zero(bytes: Seq<u8>)
    ensures
        leading_zero_bits(bytes) == 8 * bytes.len() <==> forall|i: int|
            0 <= i < bytes.len() ==> bytes[i] == 0,
    decreases bytes.len(),
{
    if bytes.len() > 0 {
        let rest = bytes.skip(1);
        lemma_full_level_is_zero(rest);
        lemma_level_bound(rest);
        if bytes[0] == 0 {
            if forall|i: int| 0 <= i < rest.len() ==> rest[i] == 0 {
                assert forall|i: int| 0 <= i < bytes.len() implies bytes[i] == 0 by {
                    if i > 0 {
                        assert(bytes[i] == rest[i - 1]);
                    }
                }
            }
            if forall|i: int| 0 <= i < bytes.len() ==> bytes[i] == 0 {
                assert forall|i: int| 0 <= i < rest.len() implies rest[i] == 0 by {
                    assert(rest[i] == bytes[i + 1]);
                }
            }
        }
    }
}

/// A byte has at least `l` leading zero bits where it is below 2^(8 - l).
proof fn lemma_byte_level_at_least(byte: u8, l: nat)
    requires
        l < 8,
    ensures
        byte_leading_zeros(byte) >= l <==> byte < pow2((8 - l) as nat),
{
    lemma2_to64();
    if l == 0 {
    } else if l == 1 {
    } else if l == 2 {
    } else if l == 3 {
    } else if l == 4 {
    } else if l == 5 {
    } else if l == 6 {
    } else {
    }
}

/// A level counts how rare a digest is: the byte sequences of a length with
/// `l` leading zero bits or more are those that stand for a number below
/// 2^(bits - l), one in 2^l of all.
pub proof fn lemma_level_at_least(bytes: Seq<u8>, l: nat)
    requires
        l <= 8 * bytes.len(),
    ensures
        leading_zero_bits(bytes) >= l <==> be_value(bytes) < pow2((8 * bytes.len() - l) as nat),
    decreases bytes.len(),
{
    if bytes.len() == 0 {
        lemma2_to64();
    } else {
        let rest = bytes.skip(1);
        let unit = pow2(8 * rest.len());
        let tail = be_value(rest);
        let lead = bytes[0] as nat;
        lemma_be_value_bound(rest);
        lemma_pow2_next_byte(rest.len());
        assert(be_value(bytes) == lead * unit + tail);
        if l >= 8 {
            if lead == 0 {
                lemma_level_at_least(rest, (l - 8) as nat);
                assert(lead * unit == 0) by (nonlinear_arith)
                    requires
                        lead == 0,
                ;
            } else {
                if l > 8 {
                    lemma_pow2_strictly_increases((8 * bytes.len() - l) as nat, 8 * rest.len());
                }
                assert(lead * unit >= unit) by (nonlinear_arith)
                    requires
                        lead >= 1,
                ;
            }
        } else {
            let share = pow2((8 - l) as nat);
            lemma_byte_level_at_least(bytes[0], l);
            lemma_pow2_adds((8 - l) as nat, 8 * rest.len());
            assert(pow2((8 * bytes.len() - l) as nat) == share * unit);
            if lead == 0 {
                lemma_level_bound(rest);
            }
            if lead < share {
                assert(lead * unit + tail < share * unit) by (nonlinear_arith)
                    requires
                        lead + 1 <= share,
                        tail < unit,
                ;
            } else {
                assert(lead * unit + tail >= share * unit) by (nonlinear_arith)
                    requires
                        lead >= share,
                        unit > 0,
                ;
            }
        }
    }
}

/// The level of a digest. The scan stops at the first byte that is not zero;
/// a digest of zero bytes alone has level 256.
pub fn score(hash: &[u8; 32]) -> (level: u32)
    ensures
        level == leading_zero_bits(hash@),
        level <= 256,
{
    let mut level: u32 = 0;
    let mut i: usize = 0;
    assert(hash@.skip(0) == hash@);
    while i < 32
        invariant_except_break
            i <= 32,
            level == 8 * i,
            leading_zero_bits(hash@) == level + leading_zero_bits(hash@.skip(i as int)),
        ensures
            level == leading_zero_bits(hash@),
        decreases 32 - i,
    {
        let byte = hash[i];
        proof {
            lemma_byte_leading_zeros(byte);
            assert(hash@.skip(i as int)[0] == byte);
            assert(hash@.skip(i as int).skip(1) == hash@.skip(i + 1));
        }
        level += byte.leading_zeros();
        if byte != 0 {
            break ;
        }
        i += 1;
    }
    proof {
        lemma_level_bound(hash@);
    }
    level
}

} // verus!
