//! Fixed-width hashing of tokens and n-grams.
//!
//! A token hash folds the token's characters into a 64-bit accumulator; an
//! n-gram fingerprint folds the ordered window of token hashes the same way.
//! Both are pure functions of their input, so identical corpora and identical
//! configuration always fingerprint identically.

use vstd::prelude::*;

verus! {

/// Initial value of the 64-bit fold.
pub const HASH_SEED: u64 = 0xcbf29ce484222325;

/// Multiplier of the 64-bit fold.
pub const HASH_PRIME: u64 = 0x100000001b3;

/// One fold step: xor the next value in, then multiply (wrapping).
pub open spec fn mix(h: u64, x: u64) -> u64 {
    vstd::wrapping::u64_specs::wrapping_mul(h ^ x, HASH_PRIME)
}

/// The hash of one token: its characters folded in order.
pub open spec fn token_hash_of(w: Seq<char>) -> u64
    decreases w.len(),
{
    if w.len() == 0 {
        HASH_SEED
    } else {
        mix(token_hash_of(w.drop_last()), w.last() as u32 as u64)
    }
}

/// The fingerprint of one n-gram: its ordered token hashes folded in order.
pub open spec fn ngram_hash_of(hs: Seq<u64>) -> u64
    decreases hs.len(),
{
    if hs.len() == 0 {
        HASH_SEED
    } else {
        mix(ngram_hash_of(hs.drop_last()), hs.last())
    }
}

/// Computes the hash of one token.
pub fn token_hash(w: &Vec<char>) -> (r: u64)
    ensures
        r == token_hash_of(w@),
{
    let mut h: u64 = HASH_SEED;
    let mut i: usize = 0;
    while i < w.len()
        invariant
            i <= w.len(),
            h == token_hash_of(w@.subrange(0, i as int)),
        decreases w.len() - i,
    {
        proof {
            assert(w@.subrange(0, i + 1 as int).drop_last() =~= w@.subrange(0, i as int));
            assert(w@.subrange(0, i + 1 as int).last() == w@[i as int]);
        }
        h = (h ^ (w[i] as u32 as u64)).wrapping_mul(HASH_PRIME);
        i = i + 1;
    }
    proof {
        assert(w@.subrange(0, w.len() as int) =~= w@);
    }
    h
}

/// Computes the fingerprint of the window `hs[start..start + n]`.
pub fn ngram_hash(hs: &Vec<u64>, start: usize, n: usize) -> (r: u64)
    requires
        start + n <= hs.len(),
    ensures
        r == ngram_hash_of(hs@.subrange(start as int, start + n)),
{
    let mut h: u64 = HASH_SEED;
    let mut i: usize = 0;
    while i < n
        invariant
            i <= n,
            start + n <= hs.len(),
            h == ngram_hash_of(hs@.subrange(start as int, start + i)),
        decreases n - i,
    {
        proof {
            assert(hs@.subrange(start as int, start + i + 1).drop_last() =~= hs@.subrange(
                start as int,
                start + i,
            ));
            assert(hs@.subrange(start as int, start + i + 1).last() == hs@[start + i]);
        }
        h = (h ^ hs[start + i]).wrapping_mul(HASH_PRIME);
        i = i + 1;
    }
    h
}

} // verus!
