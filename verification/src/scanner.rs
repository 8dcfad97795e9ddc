//! The overlap scan: for one training document, normalize, extract
//! fingerprints, and query the frozen reference index — either exhaustively
//! with full match detail, or stopping at the first hit.

use vstd::prelude::*;
use crate::assemble::{count_true, emitted_idxs, select_outputs, tally_stats, ScanStats};
use crate::index::{Occurrence, ReferenceIndex};
use crate::ngrams::{fingerprints_of, get_ngrams_idxs, tokens_of};
use crate::normalize::{normalize_spec, normalize_text};

verus! {

/// The matches of a fingerprint sequence against an index, in window order:
/// one (window start offset, reference occurrences) pair per present
/// fingerprint.
pub open spec fn matches_rec(idx: Map<u64, Seq<Occurrence>>, fps: Seq<(usize, u64)>) -> Seq<
    (usize, Seq<Occurrence>),
>
    decreases fps.len(),
{
    if fps.len() == 0 {
        Seq::empty()
    } else {
        matches_rec(idx, fps.drop_last()) + if idx.contains_key(fps.last().1) {
            seq![(fps.last().0, idx[fps.last().1])]
        } else {
            Seq::empty()
        }
    }
}

/// Whether a training text is contaminated against an index: some window
/// fingerprint of its normalized text is present in the index.
pub open spec fn contaminated_spec(idx: Map<u64, Seq<Occurrence>>, s: Seq<char>, n: int) -> bool {
    exists|j: int|
        0 <= j < fingerprints_of(normalize_spec(s), n).len() && idx.contains_key(
            fingerprints_of(normalize_spec(s), n)[j].1,
        )
}

/// The exhaustive scan finds a match exactly when some fingerprint is
/// present in the index.
pub proof fn lemma_matches_nonempty(idx: Map<u64, Seq<Occurrence>>, fps: Seq<(usize, u64)>)
    ensures
        matches_rec(idx, fps).len() > 0 <==> exists|j: int|
            0 <= j < fps.len() && idx.contains_key(fps[j].1),
    decreases fps.len(),
{
    if fps.len() == 0 {
    } else {
        lemma_matches_nonempty(idx, fps.drop_last());
        if matches_rec(idx, fps).len() > 0 {
            if idx.contains_key(fps.last().1) {
                assert(idx.contains_key(fps[fps.len() - 1].1));
            } else {
                let j = choose|j: int|
                    0 <= j < fps.drop_last().len() && idx.contains_key(fps.drop_last()[j].1);
                assert(fps.drop_last()[j] == fps[j]);
            }
        }
        if exists|j: int| 0 <= j < fps.len() && idx.contains_key(fps[j].1) {
            let j = choose|j: int| 0 <= j < fps.len() && idx.contains_key(fps[j].1);
            if j < fps.len() - 1 {
                assert(fps.drop_last()[j] == fps[j]);
            }
        }
    }
}

/// A document with fewer than `n` tokens in its normalized text can never be
/// found contaminated, whatever the index holds.
pub proof fn lemma_few_tokens_never_contaminated(
    idx: Map<u64, Seq<Occurrence>>,
    s: Seq<char>,
    n: int,
)
    requires
        tokens_of(normalize_spec(s)).len() < n,
    ensures
        !contaminated_spec(idx, s, n),
{
    crate::ngrams::lemma_few_tokens_no_fingerprints(normalize_spec(s), n);
}

/// Determinism: against one frozen index, a document's match record and its
/// contaminated verdict are pure functions of its raw text and the window
/// size, so repeated runs over identical corpora agree document by document.
pub proof fn lemma_scan_deterministic(
    idx: Map<u64, Seq<Occurrence>>,
    s: Seq<char>,
    n: int,
    rec1: Seq<(usize, Seq<Occurrence>)>,
    rec2: Seq<(usize, Seq<Occurrence>)>,
    c1: bool,
    c2: bool,
)
    requires
        rec1 == matches_rec(idx, fingerprints_of(normalize_spec(s), n)),
        rec2 == matches_rec(idx, fingerprints_of(normalize_spec(s), n)),
        c1 == contaminated_spec(idx, s, n),
        c2 == contaminated_spec(idx, s, n),
    ensures
        rec1 == rec2,
        c1 == c2,
{
}

/// The result of scanning one training document exhaustively.
pub struct ScanOutcome {
    /// The document's normalized text.
    pub normalized: String,
    /// For each window whose fingerprint is in the index, in window order:
    /// the window's start offset and the reference occurrences it matched.
    pub contamination: Vec<(usize, Vec<Occurrence>)>,
    /// Whether any window matched.
    pub contaminated: bool,
}

impl ScanOutcome {
    /// The contamination record as a sequence of (offset, occurrences)
    /// pairs.
    pub open spec fn record(self) -> Seq<(usize, Seq<Occurrence>)> {
        self.contamination@.map_values(|p: (usize, Vec<Occurrence>)| (p.0, p.1@))
    }
}

/// Copies an occurrence list.
fn copy_occurrences(v: &Vec<Occurrence>) -> (r: Vec<Occurrence>)
    ensures
        r@ == v@,
{
    let mut r: Vec<Occurrence> = Vec::new();
    let mut i: usize = 0;
    while i < v.len()
        invariant
            i <= v.len(),
            r@ == v@.subrange(0, i as int),
        decreases v.len() - i,
    {
        r.push(v[i]);
        proof {
            assert(v@.subrange(0, i + 1 as int) =~= v@.subrange(0, i as int).push(v@[i as int]));
        }
        i = i + 1;
    }
    proof {
        assert(v@.subrange(0, v.len() as int) =~= v@);
    }
    r
}

/// Scans one training document exhaustively: normalizes it, extracts its
/// fingerprints, and records, for every window whose fingerprint the index
/// holds, the window's start offset and the matching reference occurrences.
/// The document is contaminated exactly when the record is non-empty.
pub fn scan_annotated(idx: &ReferenceIndex, text: &str, ngram_size: usize) -> (r: ScanOutcome)
    requires
        ngram_size >= 1,
    ensures
        r.normalized@ == normalize_spec(text@),
        r.record() == matches_rec(
            idx@,
            fingerprints_of(normalize_spec(text@), ngram_size as int),
        ),
        r.contaminated == contaminated_spec(idx@, text@, ngram_size as int),
{
    let norm = normalize_text(text);
    let fps = get_ngrams_idxs(norm.as_str(), ngram_size);
    let ghost fpseq = fingerprints_of(normalize_spec(text@), ngram_size as int);
    let mut contamination: Vec<(usize, Vec<Occurrence>)> = Vec::new();
    let mut k: usize = 0;
    proof {
        assert(fps@.subrange(0, 0) =~= Seq::<(usize, u64)>::empty());
        assert(contamination@.map_values(|p: (usize, Vec<Occurrence>)| (p.0, p.1@)) =~= Seq::<
            (usize, Seq<Occurrence>),
        >::empty());
    }
    while k < fps.len()
        invariant
            k <= fps.len(),
            fps@ == fpseq,
            contamination@.map_values(|p: (usize, Vec<Occurrence>)| (p.0, p.1@)) == matches_rec(
                idx@,
                fpseq.subrange(0, k as int),
            ),
        decreases fps.len() - k,
    {
        proof {
            assert(fpseq.subrange(0, k + 1 as int).drop_last() =~= fpseq.subrange(0, k as int));
            assert(fpseq.subrange(0, k + 1 as int).last() == fpseq[k as int]);
        }
        let (off, fp) = fps[k];
        match idx.get_occurrences(fp) {
            Some(v) => {
                let ghost before = contamination@.map_values(
                    |p: (usize, Vec<Occurrence>)| (p.0, p.1@),
                );
                let occs = copy_occurrences(v);
                contamination.push((off, occs));
                proof {
                    assert(contamination@.map_values(|p: (usize, Vec<Occurrence>)| (p.0, p.1@))
                        =~= before.push((fpseq[k as int].0, idx@[fpseq[k as int].1])));
                    assert(before.push((fpseq[k as int].0, idx@[fpseq[k as int].1])) =~= before
                        + seq![(fpseq[k as int].0, idx@[fpseq[k as int].1])]);
                }
            },
            None => {
                proof {
                    assert(matches_rec(idx@, fpseq.subrange(0, k + 1 as int)) =~= matches_rec(
                        idx@,
                        fpseq.subrange(0, k as int),
                    ));
                }
            },
        }
        k = k + 1;
    }
    proof {
        assert(fpseq.subrange(0, fps@.len() as int) =~= fpseq);
        lemma_matches_nonempty(idx@, fpseq);
    }
    let contaminated = contamination.len() > 0;
    ScanOutcome { normalized: norm, contamination, contaminated }
}

/// The contaminated flags of a batch of training texts, in input order.
pub open spec fn flags_of(idx: Map<u64, Seq<Occurrence>>, texts: Seq<Seq<char>>, n: int) -> Seq<
    bool,
> {
    Seq::new(texts.len(), |i: int| contaminated_spec(idx, texts[i], n))
}

/// What scanning the documents of one file yields: the per-document
/// outcomes, which documents to emit, and the aggregate counters.
pub struct BatchOutcome {
    /// One outcome per input document, in input (line) order.
    pub outcomes: Vec<ScanOutcome>,
    /// The indices of the documents to emit, in input order.
    pub emit: Vec<usize>,
    /// Counters over all input documents, before any filtering.
    pub stats: ScanStats,
}

/// Scans the documents of one file in line order against the frozen index,
/// and assembles the result: every document's outcome, the documents to emit
/// (all of them, or only the clean ones), and the aggregate counters, which
/// are tallied against the pre-filter total either way.
pub fn scan_documents(
    idx: &ReferenceIndex,
    texts: &Vec<String>,
    ngram_size: usize,
    keep_only_clean: bool,
) -> (r: BatchOutcome)
    requires
        ngram_size >= 1,
    ensures
        r.outcomes@.len() == texts@.len(),
        forall|i: int|
            0 <= i < texts@.len() ==> {
                let o = #[trigger] r.outcomes@[i];
                &&& o.normalized@ == normalize_spec(texts@[i]@)
                &&& o.record() == matches_rec(
                    idx@,
                    fingerprints_of(normalize_spec(texts@[i]@), ngram_size as int),
                )
                &&& o.contaminated == contaminated_spec(idx@, texts@[i]@, ngram_size as int)
            },
        r.emit@ == emitted_idxs(
            flags_of(idx@, texts@.map_values(|t: String| t@), ngram_size as int),
            keep_only_clean,
        ),
        r.stats.total == texts@.len(),
        r.stats.contaminated == count_true(
            flags_of(idx@, texts@.map_values(|t: String| t@), ngram_size as int),
        ),
{
    let ghost views = texts@.map_values(|t: String| t@);
    let mut outcomes: Vec<ScanOutcome> = Vec::new();
    let mut flags: Vec<bool> = Vec::new();
    let mut i: usize = 0;
    while i < texts.len()
        invariant
            i <= texts.len(),
            views == texts@.map_values(|t: String| t@),
            outcomes@.len() == i,
            flags@.len() == i,
            forall|jj: int|
                0 <= jj < i ==> {
                    let o = #[trigger] outcomes@[jj];
                    &&& o.normalized@ == normalize_spec(texts@[jj]@)
                    &&& o.record() == matches_rec(
                        idx@,
                        fingerprints_of(normalize_spec(texts@[jj]@), ngram_size as int),
                    )
                    &&& o.contaminated == contaminated_spec(idx@, texts@[jj]@, ngram_size as int)
                },
            forall|jj: int|
                0 <= jj < i ==> flags@[jj] == contaminated_spec(
                    idx@,
                    texts@[jj]@,
                    ngram_size as int,
                ),
            ngram_size >= 1,
        decreases texts.len() - i,
    {
        let o = scan_annotated(idx, texts[i].as_str(), ngram_size);
        flags.push(o.contaminated);
        outcomes.push(o);
        i = i + 1;
    }
    proof {
        assert(flags@ =~= flags_of(idx@, views, ngram_size as int));
    }
    let emit = select_outputs(&flags, keep_only_clean);
    let stats = tally_stats(&flags);
    BatchOutcome { outcomes, emit, stats }
}

/// Scans one training document with the first-match policy: stops at the
/// first fingerprint the index holds and reports only the boolean verdict.
pub fn scan_first_match(idx: &ReferenceIndex, text: &str, ngram_size: usize) -> (r: bool)
    requires
        ngram_size >= 1,
    ensures
        r == contaminated_spec(idx@, text@, ngram_size as int),
{
    let norm = normalize_text(text);
    let fps = get_ngrams_idxs(norm.as_str(), ngram_size);
    let ghost fpseq = fingerprints_of(normalize_spec(text@), ngram_size as int);
    let mut k: usize = 0;
    while k < fps.len()
        invariant
            k <= fps.len(),
            fps@ == fpseq,
            fpseq == fingerprints_of(normalize_spec(text@), ngram_size as int),
            forall|jj: int| 0 <= jj < k ==> !idx@.contains_key(fpseq[jj].1),
        decreases fps.len() - k,
    {
        let p = fps[k];
        if idx.contains(p.1) {
            proof {
                assert(idx@.contains_key(
                    fingerprints_of(normalize_spec(text@), ngram_size as int)[k as int].1,
                ));
            }
            return true;
        }
        k = k + 1;
    }
    false
}

} // verus!
