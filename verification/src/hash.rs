//! The digests that levels and instants are read from.
//!
//! There are two ways from an object and a key to a digest, and they give
//! different digests. The keyed way hashes the object under the 32-byte block
//! of the key. The older, unkeyed way hashes the object and the key's text
//! apart, and then hashes the two digests one after the other.

use vstd::prelude::*;
use vstd::arithmetic::power2::{lemma2_to64, lemma_pow2_adds, lemma_pow2_pos, pow2};
use crate::key::{key_block, pad_key};

verus! {

/// Number of bytes of a digest.
pub const DIGEST_LEN: usize = 32;

/// The way from an object and a key to a digest.
#[derive(Clone, Copy, Debug, PartialEq, Eq, Structural)]
pub enum HashMode {
    /// `hash(hash(object) || hash(key text))`.
    LegacyUnkeyed,
    /// `keyed_hash(key block, object)`.
    KeyedCanonical,
}

/// The digest that `blake3::keyed_hash` returns for a message under a key of
/// 32 bytes.
pub uninterp spec fn keyed_digest(key: Seq<u8>, message: Seq<u8>) -> Seq<u8>;

/// The digest that `blake3::hash` returns for a message.
pub uninterp spec fn plain_digest(message: Seq<u8>) -> Seq<u8>;

/// The digest of an object and a key's text in the unkeyed way.
pub open spec fn legacy_digest(text: Seq<u8>, object: Seq<u8>) -> Seq<u8> {
    plain_digest(plain_digest(object) + plain_digest(text))
}

/// The digest of an object and a key's text in either way.
pub open spec fn mode_digest(mode: HashMode, text: Seq<u8>, object: Seq<u8>) -> Seq<u8> {
    match mode {
        HashMode::LegacyUnkeyed => legacy_digest(text, object),
        HashMode::KeyedCanonical => keyed_digest(key_block(text), object),
    }
}

/// The number that a byte sequence is in base 256, first byte highest: a
/// digest read as one number of 256 bits.
pub open spec fn be_value(bytes: Seq<u8>) -> nat
    decreases bytes.len(),
{
    if bytes.len() == 0 {
        0
    } else {
        bytes[0] as nat * pow2((8 * (bytes.len() - 1)) as nat) + be_value(bytes.skip(1))
    }
}

/// 2^(8 (k + 1)) is 256 times 2^(8 k).
pub(crate) proof fn lemma_pow2_next_byte(k: nat)
    ensures
        pow2(8 * (k + 1)) == 256 * pow2(8 * k),
        pow2(8 * k) > 0,
{
    lemma2_to64();
    lemma_pow2_adds(8, 8 * k);
    lemma_pow2_pos(8 * k);
}

/// A sequence of `n` bytes stands for a number below 2^(8 n).
pub proof fn lemma_be_value_bound(bytes: Seq<u8>)
    ensures
        be_value(bytes) < pow2(8 * bytes.len()),
    decreases bytes.len(),
{
    if bytes.len() == 0 {
        lemma2_to64();
    } else {
        let rest = bytes.skip(1);
        lemma_be_value_bound(rest);
        lemma_pow2_next_byte(rest.len());
        assert(bytes[0] as nat * pow2(8 * rest.len()) <= 255 * pow2(8 * rest.len()))
            by (nonlinear_arith)
            requires
                bytes[0] <= 255,
        ;
    }
}

/// Calls `blake3::keyed_hash` and copies the 32 bytes out of its `Hash`. The
/// digest depends on the key and the message alone.
#[verifier::external_body]
fn blake3_keyed(key: &[u8; 32], message: &[u8]) -> (digest: [u8; 32])
    ensures
        digest@ == keyed_digest(key@, message@),
{
    *blake3::keyed_hash(key, message).as_bytes()
}

/// Calls `blake3::hash` and copies the 32 bytes out of its `Hash`. The digest
/// depends on the message alone.
#[verifier::external_body]
fn blake3_plain(message: &[u8]) -> (digest: [u8; 32])
    ensures
        digest@ == plain_digest(message@),
{
    *blake3::hash(message).as_bytes()
}

/// The digest of an object under a 32-byte key.
pub fn keyed(key: &[u8; 32], object: &[u8]) -> (digest: [u8; 32])
    ensures
        digest@ == keyed_digest(key@, object@),
{
    blake3_keyed(key, object)
}

/// The digest of an object and a key's text in the unkeyed way: both are
/// hashed apart, and the 64 bytes of the two digests are hashed once more.
pub fn legacy(text: &[u8], object: &[u8]) -> (digest: [u8; 32])
    ensures
        digest@ == legacy_digest(text@, object@),
{
    let of_object = blake3_plain(object);
    let of_text = blake3_plain(text);
    let mut both: Vec<u8> = Vec::with_capacity(2 * DIGEST_LEN);
    let mut i: usize = 0;
    while i < DIGEST_LEN
        invariant
            i <= DIGEST_LEN,
            both@ == of_object@.take(i as int),
        decreases DIGEST_LEN - i,
    {
        both.push(of_object[i]);
        i += 1;
    }
    let mut j: usize = 0;
    while j < DIGEST_LEN
        invariant
            j <= DIGEST_LEN,
            both@ == of_object@ + of_text@.take(j as int),
        decreases DIGEST_LEN - j,
    {
        both.push(of_text[j]);
        j += 1;
    }
    assert(both@ == of_object@ + of_text@);
    blake3_plain(both.as_slice())
}

/// The digest of an object and a key's text in the way that `mode` names.
pub fn digest(mode: HashMode, text: &[u8], object: &[u8]) -> (digest: [u8; 32])
    ensures
        digest@ == mode_digest(mode, text@, object@),
{
    match mode {
        HashMode::LegacyUnkeyed => legacy(text, object),
        HashMode::KeyedCanonical => {
            let key = pad_key(text);
            keyed(&key, object)
        },
    }
}

} // verus!
