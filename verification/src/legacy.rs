//! Levels in the older, unkeyed way, for dates that are given as text.

use vstd::prelude::*;
use vstd::utf8::encode_utf8;
use crate::hash::{legacy, legacy_digest};
use crate::score::{leading_zero_bits, score};

verus! {

/// The level of an object on a date in the unkeyed way. The date is hashed as
/// the text that it is given as, which for a level that others can recompute
/// is the date's key text, such as `2024-01-26`.
pub fn rdv(object: &str, date: &str) -> (level: u32)
    ensures
        level == leading_zero_bits(legacy_digest(encode_utf8(date@), encode_utf8(object@))),
        level <= 256,
{
    let hash = legacy(date.as_bytes(), object.as_bytes());
    score(&hash)
}

} // verus!
