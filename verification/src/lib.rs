//! Deterministic rendezvous scores and rendezvous times.
//!
//! For an object name and a calendar date, [`rdv`] returns a level: the number
//! of leading zero bits of a BLAKE3 digest derived from both. For an object
//! name, a date and a rank, [`rdvt`] returns an instant within that day. Every
//! party that evaluates the same inputs obtains the same level and the same
//! instant, with no coordination.

use vstd::prelude::*;
use vstd::utf8::encode_utf8;
use crate::calendar::{CalendarDate, DayInstant, Ymd, NANOS_PER_DAY};
use crate::hash::{digest, keyed, keyed_digest, mode_digest, HashMode};
use crate::key::{create_key, encode, key_block, key_text};
use crate::resolve::{day_offset, resolve};
use crate::score::{leading_zero_bits, score};

pub mod calendar;
pub mod key;
pub mod key_proofs;
pub mod hash;
pub mod score;
pub mod resolve;
pub mod legacy;
pub mod watch;

verus! {

/// The level of an object on a date, with the digest made in the way `mode`.
pub open spec fn rdv_level(mode: HashMode, object: Seq<char>, date: Ymd) -> nat {
    leading_zero_bits(mode_digest(mode, key_text(date, None), encode_utf8(object)))
}

/// The nanoseconds after midnight of the instant that an object has on a date
/// under a rank.
pub open spec fn rdvt_offset(rank: u32, object: Seq<char>, date: Ymd) -> nat {
    day_offset(keyed_digest(key_block(key_text(date, Some(rank))), encode_utf8(object)))
}

/// Levels and instants are functions of what they are asked for: equal
/// names, equal dates and equal ranks give equal levels and equal instants,
/// whoever asks and whenever.
pub proof fn lemma_equal_inputs_equal_results(
    mode: HashMode,
    rank: u32,
    object: Seq<char>,
    date: Ymd,
    same_rank: u32,
    same_object: Seq<char>,
    same_date: Ymd,
)
    requires
        rank == same_rank,
        object == same_object,
        date == same_date,
    ensures
        rdv_level(mode, object, date) == rdv_level(mode, same_object, same_date),
        rdvt_offset(rank, object, date) == rdvt_offset(same_rank, same_object, same_date),
{
}

/// The level of an object on a date: the number of leading zero bits of the
/// keyed digest of the object's name under the date's key. It depends on the
/// name and the date alone.
pub fn rdv(object: &str, date: &CalendarDate) -> (level: u32)
    ensures
        level == rdv_level(HashMode::KeyedCanonical, object@, date@),
        level <= 256,
{
    let key = create_key(date, None);
    let hash = keyed(&key, object.as_bytes());
    score(&hash)
}

/// The level of an object on a date, with the digest made in the way that the
/// caller names. The two ways give different levels.
pub fn rdv_with_mode(mode: HashMode, object: &str, date: &CalendarDate) -> (level: u32)
    ensures
        level == rdv_level(mode, object@, date@),
        level <= 256,
{
    let text = encode(date, None);
    let hash = digest(mode, text.as_slice(), object.as_bytes());
    score(&hash)
}

/// The instant that an object has on a date under a rank. It lies on that
/// date, and depends on the rank, the name and the date alone. Ranks name
/// independent draws: a higher rank is not a later instant.
pub fn rdvt(rank: u32, object: &str, date: &CalendarDate) -> (instant: DayInstant)
    ensures
        instant@ == (date@, rdvt_offset(rank, object@, date@)),
        rdvt_offset(rank, object@, date@) < NANOS_PER_DAY,
{
    let key = create_key(date, Some(rank));
    let hash = keyed(&key, object.as_bytes());
    let nanos = resolve(&hash);
    DayInstant::new(*date, nanos).unwrap()
}

} // verus!
