//! What holds of every key: its length, its alphabet, and that no two pairs
//! of a date and a rank share one.

use vstd::prelude::*;
use crate::calendar::Ymd;
use crate::key::{
    decimal, digit, key_block, key_text, padded_decimal, rank_suffix, sign_prefix, year_magnitude,
    year_width, MINUS, PLUS, UNDERSCORE, ZERO,
};

verus! {

/// The bytes of the alphabet of keys: the two signs, the ten digits and the underscore.
pub open spec fn is_key_byte(byte: u8) -> bool {
    byte == PLUS || byte == MINUS || byte == UNDERSCORE || ZERO <= byte <= ZERO + 9
}

/// A number is written with at least one digit, and with digits alone.
pub proof fn lemma_decimal_digits(n: nat)
    ensures
        decimal(n).len() >= 1,
        forall|i: int| 0 <= i < decimal(n).len() ==> ZERO <= #[trigger] decimal(n)[i] <= ZERO + 9,
    decreases n,
{
    if n >= 10 {
        lemma_decimal_digits(n / 10);
    }
}

/// A number below 10^10, as every `u32` is, is written with at most ten digits.
pub proof fn lemma_decimal_len(n: nat)
    requires
        n < 10_000_000_000,
    ensures
        decimal(n).len() <= 10,
{
    reveal_with_fuel(decimal, 11);
}

/// Two numbers that are written alike are the same number.
pub proof fn lemma_decimal_injective(a: nat, b: nat)
    requires
        decimal(a) == decimal(b),
    ensures
        a == b,
    decreases a,
{
    if a >= 10 && b >= 10 {
        assert(decimal(a).drop_last() == decimal(a / 10));
        assert(decimal(b).drop_last() == decimal(b / 10));
        assert(decimal(a).last() == digit(a % 10));
        assert(decimal(b).last() == digit(b % 10));
        lemma_decimal_injective(a / 10, b / 10);
        assert(a % 10 == b % 10);
    } else if a < 10 && b < 10 {
        assert(decimal(a)[0] == digit(a));
        assert(decimal(b)[0] == digit(b));
    } else if a < 10 {
        lemma_decimal_digits(b / 10);
        assert(decimal(a).len() == 1);
        assert(decimal(b).len() == decimal(b / 10).len() + 1);
    } else {
        lemma_decimal_digits(a / 10);
        assert(decimal(b).len() == 1);
        assert(decimal(a).len() == decimal(a / 10).len() + 1);
    }
}

/// 10 to the power of `e`.
pub open spec fn pow10(e: nat) -> nat
    decreases e,
{
    if e == 0 {
        1
    } else {
        10 * pow10((e - 1) as nat)
    }
}

/// A number that is written with `width` digits has `width` bytes, digits all.
pub proof fn lemma_padded_digits(n: nat, width: nat)
    ensures
        padded_decimal(n, width).len() == width,
        forall|i: int|
            0 <= i < width ==> ZERO <= #[trigger] padded_decimal(n, width)[i] <= ZERO + 9,
    decreases width,
{
    if width > 0 {
        lemma_padded_digits(n / 10, (width - 1) as nat);
    }
}

/// Two numbers that fit into `width` digits and are written alike are the same number.
pub proof fn lemma_padded_injective(a: nat, b: nat, width: nat)
    requires
        a < pow10(width),
        b < pow10(width),
        padded_decimal(a, width) == padded_decimal(b, width),
    ensures
        a == b,
    decreases width,
{
    if width > 0 {
        let rest = (width - 1) as nat;
        assert(padded_decimal(a, width).drop_last() == padded_decimal(a / 10, rest));
        assert(padded_decimal(b, width).drop_last() == padded_decimal(b / 10, rest));
        assert(padded_decimal(a, width).last() == digit(a % 10));
        assert(padded_decimal(b, width).last() == digit(b % 10));
        lemma_padded_injective(a / 10, b / 10, rest);
        assert(a % 10 == b % 10);
    }
}

/// Where each field of a key stands.
proof fn lemma_layout(date: Ymd, rank: Option<u32>)
    requires
        date.is_valid(),
    ensures
        ({
            let k = key_text(date, rank);
            let m = year_magnitude(date.year);
            let p = sign_prefix(date.year).len() as int;
            let w = year_width(m) as int;
            let s = rank_suffix(rank);
            &&& k.len() == p + w + 6 + s.len()
            &&& m < pow10(w as nat)
            &&& date.year < 0 ==> p == 1 && k[0] == MINUS
            &&& date.year > 9_999 ==> p == 1 && k[0] == PLUS
            &&& 0 <= date.year <= 9_999 ==> p == 0
            &&& k.subrange(p, p + w) == padded_decimal(m, w as nat)
            &&& k[p + w] == MINUS
            &&& k.subrange(p + w + 1, p + w + 3) == padded_decimal(date.month as nat, 2)
            &&& k[p + w + 3] == MINUS
            &&& k.subrange(p + w + 4, p + w + 6) == padded_decimal(date.day as nat, 2)
            &&& k.subrange(p + w + 6, k.len() as int) == s
        }),
{
    let k = key_text(date, rank);
    let m = year_magnitude(date.year);
    let p = sign_prefix(date.year).len() as int;
    let w = year_width(m) as int;
    let s = rank_suffix(rank);
    reveal_with_fuel(pow10, 7);
    lemma_padded_digits(m, w as nat);
    lemma_padded_digits(date.month as nat, 2);
    lemma_padded_digits(date.day as nat, 2);
    assert(k.subrange(p, p + w) =~= padded_decimal(m, w as nat));
    assert(k.subrange(p + w + 1, p + w + 3) =~= padded_decimal(date.month as nat, 2));
    assert(k.subrange(p + w + 4, p + w + 6) =~= padded_decimal(date.day as nat, 2));
    assert(k.subrange(p + w + 6, k.len() as int) =~= s);
}

/// A key has from 10 to 24 bytes, all of the alphabet of keys.
pub proof fn lemma_key_text_shape(date: Ymd, rank: Option<u32>)
    requires
        date.is_valid(),
    ensures
        10 <= key_text(date, rank).len() <= 24,
        forall|i: int|
            0 <= i < key_text(date, rank).len() ==> is_key_byte(#[trigger] key_text(date, rank)[i]),
{
    let k = key_text(date, rank);
    let m = year_magnitude(date.year);
    let p = sign_prefix(date.year).len() as int;
    let w = year_width(m) as int;
    let s = rank_suffix(rank);
    lemma_layout(date, rank);
    lemma_padded_digits(m, w as nat);
    lemma_padded_digits(date.month as nat, 2);
    lemma_padded_digits(date.day as nat, 2);
    if let Some(r) = rank {
        lemma_decimal_digits(r as nat);
        lemma_decimal_len(r as nat);
    }
    assert forall|i: int| 0 <= i < k.len() implies is_key_byte(#[trigger] k[i]) by {
        if i < p {
        } else if i < p + w {
            assert(k[i] == k.subrange(p, p + w)[i - p]);
        } else if i == p + w {
        } else if i < p + w + 3 {
            assert(k[i] == k.subrange(p + w + 1, p + w + 3)[i - (p + w + 1)]);
        } else if i == p + w + 3 {
        } else if i < p + w + 6 {
            assert(k[i] == k.subrange(p + w + 4, p + w + 6)[i - (p + w + 4)]);
        } else {
            assert(k[i] == k.subrange(p + w + 6, k.len() as int)[i - (p + w + 6)]);
        }
    }
}

/// The text of a key gives back the date and the rank that it was made from.
pub proof fn lemma_key_text_injective(d1: Ymd, r1: Option<u32>, d2: Ymd, r2: Option<u32>)
    requires
        d1.is_valid(),
        d2.is_valid(),
        key_text(d1, r1) == key_text(d2, r2),
    ensures
        d1 == d2,
        r1 == r2,
{
    let k = key_text(d1, r1);
    let m1 = year_magnitude(d1.year);
    let m2 = year_magnitude(d2.year);
    let p1 = sign_prefix(d1.year).len() as int;
    let p2 = sign_prefix(d2.year).len() as int;
    let w1 = year_width(m1) as int;
    let w2 = year_width(m2) as int;
    let y1 = padded_decimal(m1, w1 as nat);
    let y2 = padded_decimal(m2, w2 as nat);
    lemma_layout(d1, r1);
    lemma_layout(d2, r2);
    lemma_padded_digits(m1, w1 as nat);
    lemma_padded_digits(m2, w2 as nat);
    // The first byte tells whether there is a sign, and which.
    assert(y1[0] == k[p1]);
    assert(y2[0] == k[p2]);
    assert(p1 == p2);
    let p = p1;
    // The first separator tells how many digits the year has.
    assert(w1 == w2) by {
        if w1 < w2 {
            assert(y2[w1] == k[p + w1]);
        } else if w2 < w1 {
            assert(y1[w2] == k[p + w2]);
        }
    }
    let w = w1;
    lemma_padded_injective(m1, m2, w as nat);
    assert(d1.year == d2.year);
    reveal_with_fuel(pow10, 3);
    lemma_padded_injective(d1.month as nat, d2.month as nat, 2);
    lemma_padded_injective(d1.day as nat, d2.day as nat, 2);
    // What follows the date is the rank.
    let s1 = rank_suffix(r1);
    let s2 = rank_suffix(r2);
    assert(s1 == s2);
    match (r1, r2) {
        (Some(a), Some(b)) => {
            assert(decimal(a as nat) == s1.subrange(1, s1.len() as int));
            assert(decimal(b as nat) == s2.subrange(1, s2.len() as int));
            lemma_decimal_injective(a as nat, b as nat);
        },
        (Some(a), None) => {
            assert(s1.len() >= 1);
        },
        (None, Some(b)) => {
            assert(s2.len() >= 1);
        },
        (None, None) => {},
    }
}

/// The 32-byte block of a key gives back the key's text.
pub proof fn lemma_key_block_injective(d1: Ymd, r1: Option<u32>, d2: Ymd, r2: Option<u32>)
    requires
        d1.is_valid(),
        d2.is_valid(),
        key_block(key_text(d1, r1)) == key_block(key_text(d2, r2)),
    ensures
        key_text(d1, r1) == key_text(d2, r2),
{
    let k1 = key_text(d1, r1);
    let k2 = key_text(d2, r2);
    lemma_key_text_shape(d1, r1);
    lemma_key_text_shape(d2, r2);
    assert(k1.len() == k2.len()) by {
        if k1.len() < k2.len() {
            let i = k1.len() as int;
            assert(key_block(k1)[i] == 0);
            assert(key_block(k2)[i] == k2[i]);
            assert(is_key_byte(k2[i]));
        } else if k2.len() < k1.len() {
            let i = k2.len() as int;
            assert(key_block(k2)[i] == 0);
            assert(key_block(k1)[i] == k1[i]);
            assert(is_key_byte(k1[i]));
        }
    }
    assert forall|i: int| 0 <= i < k1.len() implies k1[i] == k2[i] by {
        assert(key_block(k1)[i] == key_block(k2)[i]);
    }
    assert(k1 =~= k2);
}

/// Keys are injective: two pairs of a valid date and an optional rank that
/// differ, in the date or in the rank, have different key texts and different
/// 32-byte keys. A date without a rank differs from the same date with any
/// rank, rank 0 too.
pub proof fn lemma_distinct_keys(d1: Ymd, r1: Option<u32>, d2: Ymd, r2: Option<u32>)
    requires
        d1.is_valid(),
        d2.is_valid(),
        d1 != d2 || r1 != r2,
    ensures
        key_text(d1, r1) != key_text(d2, r2),
        key_block(key_text(d1, r1)) != key_block(key_text(d2, r2)),
{
    if key_block(key_text(d1, r1)) == key_block(key_text(d2, r2)) {
        lemma_key_block_injective(d1, r1, d2, r2);
    }
    if key_text(d1, r1) == key_text(d2, r2) {
        lemma_key_text_injective(d1, r1, d2, r2);
    }
}

} // verus!
