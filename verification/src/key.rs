//! The key that stands for a date, or for a date and a rank, in the hash.
//!
//! A key is ASCII text:
//!
//! ```text
//! [sign] year "-" month "-" day ["_" rank]
//! ```
//!
//! The sign is `-` for a negative year and `+` for a year above 9999, and is
//! left out otherwise. The year's magnitude has four, five or six digits, the
//! month and the day two each. The rank is written in decimal without leading
//! zeros.

use vstd::prelude::*;
use crate::calendar::{CalendarDate, Ymd};

verus! {

/// ASCII `+`, the sign of a year above 9999.
pub const PLUS: u8 = 43;

/// ASCII `-`, the sign of a negative year and the separator of the date's fields.
pub const MINUS: u8 = 45;

/// ASCII `0`.
pub const ZERO: u8 = 48;

/// ASCII `_`, the separator before the rank.
pub const UNDERSCORE: u8 = 95;

/// Number of bytes of a keyed hash's key.
pub const KEY_LEN: usize = 32;

/// The ASCII digit for `d`, for `d` below 10.
pub open spec fn digit(d: nat) -> u8 {
    (ZERO + d) as u8
}

/// The last `width` decimal digits of `n`, most significant first.
pub open spec fn padded_decimal(n: nat, width: nat) -> Seq<u8>
    decreases width,
{
    if width == 0 {
        Seq::empty()
    } else {
        padded_decimal(n / 10, (width - 1) as nat).push(digit(n % 10))
    }
}

/// The decimal digits of `n` without leading zeros.
pub open spec fn decimal(n: nat) -> Seq<u8>
    decreases n,
{
    if n < 10 {
        seq![digit(n)]
    } else {
        decimal(n / 10).push(digit(n % 10))
    }
}

/// The year without its sign.
pub open spec fn year_magnitude(year: int) -> nat {
    if year < 0 {
        (-year) as nat
    } else {
        year as nat
    }
}

/// Number of digits that a year of this magnitude is written with.
pub open spec fn year_width(magnitude: nat) -> nat {
    if magnitude > 99_999 {
        6
    } else if magnitude > 9_999 {
        5
    } else {
        4
    }
}

/// The sign in front of a year, if it has one.
pub open spec fn sign_prefix(year: int) -> Seq<u8> {
    if year < 0 {
        seq![MINUS]
    } else if year > 9_999 {
        seq![PLUS]
    } else {
        Seq::empty()
    }
}

/// The text of a date.
pub open spec fn date_text(date: Ymd) -> Seq<u8> {
    let magnitude = year_magnitude(date.year);
    sign_prefix(date.year) + padded_decimal(magnitude, year_width(magnitude)) + seq![MINUS]
        + padded_decimal(date.month as nat, 2) + seq![MINUS] + padded_decimal(date.day as nat, 2)
}

/// What a rank adds to the text of a date.
pub open spec fn rank_suffix(rank: Option<u32>) -> Seq<u8> {
    match rank {
        Some(r) => seq![UNDERSCORE] + decimal(r as nat),
        None => Seq::empty(),
    }
}

/// The text of the key of a date and an optional rank.
pub open spec fn key_text(date: Ymd, rank: Option<u32>) -> Seq<u8> {
    date_text(date) + rank_suffix(rank)
}

/// The first 32 bytes of a text, with zero bytes after its end.
pub open spec fn key_block(text: Seq<u8>) -> Seq<u8> {
    Seq::new(
        KEY_LEN as nat,
        |i: int|
            if i < text.len() {
                text[i]
            } else {
                0u8
            },
    )
}

/// Calls `itoa::Buffer::format` on a `u32`. The crate prints an integer as
/// decimal text; for an unsigned one that is its digits without leading
/// zeros, and `0` for zero.
#[verifier::external_body]
fn rank_digits(rank: u32) -> (digits: Vec<u8>)
    ensures
        digits@ == decimal(rank as nat),
{
    let mut buffer = itoa::Buffer::new();
    buffer.format(rank).as_bytes().to_vec()
}

/// Appends the last `width` decimal digits of `n`.
fn push_padded(out: &mut Vec<u8>, n: u32, width: u32)
    ensures
        final(out)@ == old(out)@ + padded_decimal(n as nat, width as nat),
    decreases width,
{
    if width > 0 {
        push_padded(out, n / 10, width - 1);
        out.push(ZERO + (n % 10) as u8);
    }
    assert(out@ == old(out)@ + padded_decimal(n as nat, width as nat));
}

/// Appends every byte of `bytes`.
fn push_all(out: &mut Vec<u8>, bytes: &Vec<u8>)
    ensures
        final(out)@ == old(out)@ + bytes@,
{
    let mut i: usize = 0;
    while i < bytes.len()
        invariant
            i <= bytes.len(),
            out@ == old(out)@ + bytes@.take(i as int),
        decreases bytes.len() - i,
    {
        out.push(bytes[i]);
        i += 1;
        assert(bytes@.take(i as int) == bytes@.take(i - 1).push(bytes@[i - 1]));
    }
    assert(bytes@.take(i as int) == bytes@);
}

/// Writes the key of a date and an optional rank, field by field.
pub fn encode(date: &CalendarDate, rank: Option<u32>) -> (key: Vec<u8>)
    ensures
        key@ == key_text(date@, rank),
{
    let year = date.year();
    let magnitude: u32 = if year < 0 {
        (-year) as u32
    } else {
        year as u32
    };
    let width: u32 = if magnitude > 99_999 {
        6
    } else if magnitude > 9_999 {
        5
    } else {
        4
    };
    let mut key: Vec<u8> = Vec::new();
    if year < 0 {
        key.push(MINUS);
    } else if year > 9_999 {
        key.push(PLUS);
    }
    assert(key@ == sign_prefix(date@.year));
    push_padded(&mut key, magnitude, width);
    key.push(MINUS);
    push_padded(&mut key, date.month(), 2);
    key.push(MINUS);
    push_padded(&mut key, date.day(), 2);
    assert(key@ == date_text(date@));
    match rank {
        Some(r) => {
            key.push(UNDERSCORE);
            let digits = rank_digits(r);
            push_all(&mut key, &digits);
            assert(key@ == date_text(date@) + (seq![UNDERSCORE] + decimal(r as nat)));
        },
        None => {
            assert(key@ == date_text(date@) + Seq::<u8>::empty());
        },
    }
    key
}

/// Copies a text into a block of 32 bytes: what is beyond the block is cut
/// off, and what the text leaves free is zero.
pub fn pad_key(text: &[u8]) -> (block: [u8; 32])
    ensures
        block@ == key_block(text@),
{
    let mut block = [0u8; 32];
    let mut i: usize = 0;
    while i < 32 && i < text.len()
        invariant
            i <= 32,
            i <= text.len(),
            forall|j: int| 0 <= j < i ==> block@[j] == text@[j],
            forall|j: int| i <= j < 32 ==> block@[j] == 0u8,
        decreases 32 - i,
    {
        block[i] = text[i];
        i += 1;
    }
    assert(block@ =~= key_block(text@));
    block
}

/// The 32-byte key of a date and an optional rank.
pub fn create_key(date: &CalendarDate, rank: Option<u32>) -> (key: [u8; 32])
    ensures
        key@ == key_block(key_text(date@, rank)),
{
    let text = encode(date, rank);
    pad_key(text.as_slice())
}

} // verus!
