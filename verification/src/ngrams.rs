//! N-gram extraction: word-boundary segmentation, whitespace-only segment
//! filtering, and the sliding window of token hashes that yields one
//! fingerprint per full window, paired with the window's start offset.

use vstd::prelude::*;
use unicode_segmentation::UnicodeSegmentation;
use crate::chars::{is_white, white_char};
use crate::hashing::{ngram_hash, ngram_hash_of, token_hash, token_hash_of};

verus! {

/// UAX #29 word-boundary segmentation of a text: named, not stated. Each
/// element is a (byte offset, segment characters) pair.
pub uninterp spec fn word_bounds_of(s: Seq<char>) -> Seq<(usize, Seq<char>)>;

/// Relies on unicode_segmentation::UnicodeSegmentation::split_word_bound_indices:
/// splits the string on UAX #29 word boundaries and yields each segment with
/// its byte offset; the segmentation depends on the characters alone.
#[verifier::external_body]
fn split_word_bounds(s: &str) -> (r: Vec<(usize, Vec<char>)>)
    ensures
        r@.map_values(|p: (usize, Vec<char>)| (p.0, p.1@)) == word_bounds_of(s@),
{
    s.split_word_bound_indices().map(|(i, w)| (i, w.chars().collect())).collect()
}

/// A segment counts as a token when at least one of its characters is not
/// whitespace.
pub open spec fn is_token(w: Seq<char>) -> bool {
    exists|i: int| 0 <= i < w.len() && !is_white(w[i])
}

/// The segments that count as tokens, order kept.
pub open spec fn tokens_rec(ps: Seq<(usize, Seq<char>)>) -> Seq<(usize, Seq<char>)>
    decreases ps.len(),
{
    if ps.len() == 0 {
        Seq::empty()
    } else {
        tokens_rec(ps.drop_last()) + if is_token(ps.last().1) {
            seq![ps.last()]
        } else {
            Seq::empty()
        }
    }
}

/// The tokens of a text: its word-bound segments that are not
/// whitespace-only, each with its byte offset.
pub open spec fn tokens_of(s: Seq<char>) -> Seq<(usize, Seq<char>)> {
    tokens_rec(word_bounds_of(s))
}

/// The hashes of the tokens of a text, in order.
pub open spec fn token_hashes_of(s: Seq<char>) -> Seq<u64> {
    tokens_of(s).map_values(|p: (usize, Seq<char>)| token_hash_of(p.1))
}

/// The (start offset, fingerprint) pairs of a text for window size `n`: one
/// per window of `n` consecutive tokens, carrying the offset of the window's
/// first token. A text with fewer than `n` tokens has none.
pub open spec fn fingerprints_of(s: Seq<char>, n: int) -> Seq<(usize, u64)> {
    let toks = tokens_of(s);
    if 1 <= n && n <= toks.len() {
        Seq::new(
            (toks.len() - n + 1) as nat,
            |j: int| (toks[j].0, ngram_hash_of(token_hashes_of(s).subrange(j, j + n))),
        )
    } else {
        Seq::empty()
    }
}

/// A document with fewer than `n` tokens yields no fingerprints.
pub proof fn lemma_few_tokens_no_fingerprints(s: Seq<char>, n: int)
    requires
        tokens_of(s).len() < n,
    ensures
        fingerprints_of(s, n).len() == 0,
{
}

/// Decides whether a segment holds any non-whitespace character.
fn has_non_white(w: &Vec<char>) -> (r: bool)
    ensures
        r == is_token(w@),
{
    let mut i: usize = 0;
    while i < w.len()
        invariant
            i <= w.len(),
            forall|jj: int| 0 <= jj < i ==> is_white(w@[jj]),
        decreases w.len() - i,
    {
        if !white_char(w[i]) {
            return true;
        }
        i = i + 1;
    }
    false
}

/// Extracts the positioned n-gram fingerprints of a text: segments it on
/// word boundaries, discards whitespace-only segments, hashes each token,
/// and emits one fingerprint per window of `n` consecutive token hashes,
/// paired with the byte offset of the window's first token.
pub fn get_ngrams_idxs(text: &str, ngram_size: usize) -> (r: Vec<(usize, u64)>)
    requires
        ngram_size >= 1,
    ensures
        r@ == fingerprints_of(text@, ngram_size as int),
{
    let ghost wb = word_bounds_of(text@);
    let segs = split_word_bounds(text);
    let mut offs: Vec<usize> = Vec::new();
    let mut hashes: Vec<u64> = Vec::new();
    let mut i: usize = 0;
    proof {
        assert(wb.subrange(0, 0) =~= Seq::<(usize, Seq<char>)>::empty());
    }
    while i < segs.len()
        invariant
            i <= segs.len(),
            segs@.map_values(|p: (usize, Vec<char>)| (p.0, p.1@)) == wb,
            offs.len() == hashes.len(),
            offs@.len() == tokens_rec(wb.subrange(0, i as int)).len(),
            forall|jj: int|
                0 <= jj < offs@.len() ==> offs@[jj] == tokens_rec(wb.subrange(0, i as int))[jj].0,
            forall|jj: int|
                0 <= jj < offs@.len() ==> hashes@[jj] == token_hash_of(
                    tokens_rec(wb.subrange(0, i as int))[jj].1,
                ),
        decreases segs.len() - i,
    {
        let ghost tprev = tokens_rec(wb.subrange(0, i as int));
        proof {
            assert(segs@.map_values(|p: (usize, Vec<char>)| (p.0, p.1@))[i as int] == wb[i as int]);
            assert(wb.subrange(0, i + 1 as int).drop_last() =~= wb.subrange(0, i as int));
            assert(wb.subrange(0, i + 1 as int).last() == wb[i as int]);
        }
        let (off, seg) = &segs[i];
        proof {
            assert((segs@[i as int].0, segs@[i as int].1@) == wb[i as int]);
        }
        if has_non_white(seg) {
            offs.push(*off);
            let h = token_hash(seg);
            hashes.push(h);
            proof {
                assert(tokens_rec(wb.subrange(0, i + 1 as int)) =~= tprev.push(wb[i as int]));
            }
        } else {
            proof {
                assert(tokens_rec(wb.subrange(0, i + 1 as int)) =~= tprev);
            }
        }
        i = i + 1;
    }
    proof {
        assert(wb.subrange(0, segs.len() as int) =~= wb);
        assert(hashes@ =~= token_hashes_of(text@));
    }
    let ghost toks = tokens_of(text@);
    let mut out: Vec<(usize, u64)> = Vec::new();
    if hashes.len() >= ngram_size {
        let mut j: usize = 0;
        while j <= hashes.len() - ngram_size
            invariant
                hashes@ == token_hashes_of(text@),
                hashes@.len() == toks.len(),
                1 <= ngram_size <= hashes.len(),
                j <= hashes@.len() - ngram_size + 1,
                offs@.len() == toks.len(),
                forall|jj: int| 0 <= jj < toks.len() ==> offs@[jj] == toks[jj].0,
                out@.len() == j,
                forall|jj: int|
                    0 <= jj < j ==> out@[jj] == (
                        toks[jj].0,
                        ngram_hash_of(token_hashes_of(text@).subrange(jj, jj + ngram_size)),
                    ),
            decreases hashes.len() - j,
        {
            let h = ngram_hash(&hashes, j, ngram_size);
            out.push((offs[j], h));
            j = j + 1;
        }
        proof {
            assert(out@ =~= fingerprints_of(text@, ngram_size as int));
        }
    } else {
        proof {
            assert(out@ =~= fingerprints_of(text@, ngram_size as int));
        }
    }
    out
}

} // verus!
