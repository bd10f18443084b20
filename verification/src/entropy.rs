//! Entropy drawn from the standard library's hasher keys.

use std::collections::hash_map::{DefaultHasher, RandomState};
use std::hash::{BuildHasher, Hasher};

use vstd::prelude::*;

use crate::text::owned;

verus! {

/// Entropy could not be drawn.
#[derive(Clone, Copy, Debug, PartialEq, Eq, Structural)]
pub struct EntropyError;

impl EntropyError {
    pub fn text(&self) -> (r: String)
        ensures
            r@ == "entropy fill failed"@,
    {
        owned("entropy fill failed")
    }
}

/// `RandomState::new`: a state with keys that are not known beforehand.
/// Nothing is claimed of it.
#[verifier::external_body]
fn random_state() -> RandomState {
    RandomState::new()
}

/// `RandomState::build_hasher`: a hasher that starts from the keys of the
/// state. Nothing is claimed of it.
#[verifier::external_body]
fn hasher_of(state: &RandomState) -> DefaultHasher {
    state.build_hasher()
}

/// `DefaultHasher::write_usize`: feeds a number to the hasher. Nothing is
/// claimed of it.
#[verifier::external_body]
fn feed(hasher: &mut DefaultHasher, n: usize) {
    hasher.write_usize(n);
}

/// The hash of `salt` under freshly drawn keys.
fn random_word(salt: usize) -> u64 {
    let state = random_state();
    let mut hasher = hasher_of(&state);
    feed(&mut hasher, salt);
    hasher.finish()
}

/// The bytes from `at` on are those of the word, as far as they reach.
pub open spec fn word_placed(buf: Seq<u8>, at: int, word: u64) -> Seq<u8> {
    Seq::new(
        buf.len(),
        |i: int|
            if at <= i < at + 8 {
                vstd::bytes::spec_u64_to_le_bytes(word)[i - at]
            } else {
                buf[i]
            },
    )
}

/// Put the bytes of a word into `buf` from `at` on, as far as they reach.
pub fn place_word(buf: &mut Vec<u8>, at: usize, word: u64)
    requires
        at <= old(buf)@.len(),
    ensures
        final(buf)@ == word_placed(old(buf)@, at as int, word),
{
    let bytes = vstd::bytes::u64_to_le_bytes(word);
    let ghost before = buf@;
    let mut k: usize = 0;
    while k < 8 && k < buf.len() - at
        invariant
            k <= 8,
            at + k <= buf@.len(),
            bytes@ == vstd::bytes::spec_u64_to_le_bytes(word),
            bytes@.len() == 8,
            buf@.len() == before.len(),
            forall|i: int|
                0 <= i < buf@.len() ==> #[trigger] buf@[i] == (if at <= i < at + k {
                    bytes@[i - at]
                } else {
                    before[i]
                }),
        decreases 8 - k,
    {
        buf.set(at + k, bytes[k]);
        k += 1;
    }
    assert(buf@ =~= word_placed(before, at as int, word));
}

/// The words fill the bytes, eight at a time.
pub open spec fn words_placed(buf: Seq<u8>, words: Seq<u64>) -> Seq<u8>
    decreases words.len(),
{
    if words.len() == 0 {
        buf
    } else {
        word_placed(
            words_placed(buf, words.drop_last()),
            8 * (words.len() - 1),
            words.last(),
        )
    }
}

/// Overwrite every byte of `buf` with random words. Which words is not
/// stated; there are as many as the bytes take.
pub fn fill_bytes(buf: &mut Vec<u8>) -> (r: Result<(), EntropyError>)
    ensures
        r is Ok,
        exists|words: Seq<u64>|
            {
                &&& 8 * words.len() >= old(buf)@.len()
                &&& final(buf)@ == #[trigger] words_placed(old(buf)@, words)
            },
        final(buf)@.len() == old(buf)@.len(),
{
    let ghost mut words: Seq<u64> = Seq::empty();
    let mut filled: usize = 0;
    while filled < buf.len()
        invariant
            buf@.len() == old(buf)@.len(),
            buf@ == words_placed(old(buf)@, words),
            filled < buf@.len() ==> filled == 8 * words.len(),
            filled >= buf@.len() ==> 8 * words.len() >= buf@.len(),
        decreases buf@.len() - filled,
    {
        let word: u64 = random_word(filled);
        place_word(buf, filled, word);
        proof {
            let more = words.push(word);
            assert(more.drop_last() =~= words);
            assert(8 * (more.len() - 1) == filled);
            words = more;
        }
        if buf.len() - filled <= 8 {
            filled = buf.len();
        } else {
            filled = filled + 8;
        }
    }
    Ok(())
}

} // verus!
