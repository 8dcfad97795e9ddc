//! Result assembly: which documents are emitted, the deduplicated set of
//! contaminated identifiers, and the aggregate counters reported after the
//! scan.

use vstd::prelude::*;

verus! {

/// How many flags are set.
pub open spec fn count_true(flags: Seq<bool>) -> int
    decreases flags.len(),
{
    if flags.len() == 0 {
        0
    } else {
        count_true(flags.drop_last()) + if flags.last() {
            1int
        } else {
            0int
        }
    }
}

/// The flag count never exceeds the document count.
pub proof fn lemma_count_true_bounds(flags: Seq<bool>)
    ensures
        0 <= count_true(flags) <= flags.len(),
    decreases flags.len(),
{
    if flags.len() > 0 {
        lemma_count_true_bounds(flags.drop_last());
    }
}

/// The indices of the documents to emit, in input order: all of them, or,
/// when only clean documents are kept, those whose flag is not set.
pub open spec fn emitted_idxs(flags: Seq<bool>, keep_only_clean: bool) -> Seq<usize>
    decreases flags.len(),
{
    if flags.len() == 0 {
        Seq::empty()
    } else {
        emitted_idxs(flags.drop_last(), keep_only_clean) + if !keep_only_clean || !flags.last() {
            seq![(flags.len() - 1) as usize]
        } else {
            Seq::empty()
        }
    }
}

/// Output document count: input count minus contaminated count when only
/// clean documents are kept, and the input count otherwise.
pub proof fn lemma_emitted_count(flags: Seq<bool>, keep_only_clean: bool)
    ensures
        keep_only_clean ==> emitted_idxs(flags, keep_only_clean).len() == flags.len() - count_true(
            flags,
        ),
        !keep_only_clean ==> emitted_idxs(flags, keep_only_clean).len() == flags.len(),
    decreases flags.len(),
{
    if flags.len() > 0 {
        lemma_emitted_count(flags.drop_last(), keep_only_clean);
    }
    lemma_count_true_bounds(flags);
}

/// Selects which documents to emit, given each document's contaminated
/// flag, in input order.
pub fn select_outputs(flags: &Vec<bool>, keep_only_clean: bool) -> (r: Vec<usize>)
    ensures
        r@ == emitted_idxs(flags@, keep_only_clean),
{
    let mut out: Vec<usize> = Vec::new();
    let mut k: usize = 0;
    proof {
        assert(flags@.subrange(0, 0) =~= Seq::<bool>::empty());
    }
    while k < flags.len()
        invariant
            k <= flags.len(),
            out@ == emitted_idxs(flags@.subrange(0, k as int), keep_only_clean),
        decreases flags.len() - k,
    {
        proof {
            assert(flags@.subrange(0, k + 1 as int).drop_last() =~= flags@.subrange(0, k as int));
            assert(flags@.subrange(0, k + 1 as int).last() == flags@[k as int]);
        }
        if !keep_only_clean || !flags[k] {
            out.push(k);
            proof {
                assert(out@ =~= emitted_idxs(flags@.subrange(0, k + 1 as int), keep_only_clean));
            }
        } else {
            proof {
                assert(out@ =~= emitted_idxs(flags@.subrange(0, k + 1 as int), keep_only_clean));
            }
        }
        k = k + 1;
    }
    proof {
        assert(flags@.subrange(0, flags.len() as int) =~= flags@);
    }
    out
}

/// Aggregate counters of one scan, read only after every document has been
/// processed.
#[derive(Clone, Copy, Debug, PartialEq, Eq, Structural)]
pub struct ScanStats {
    /// How many documents were scanned.
    pub total: usize,
    /// How many of them were contaminated.
    pub contaminated: usize,
}

/// Tallies the aggregate counters from every document's contaminated flag,
/// against the pre-filter total.
pub fn tally_stats(flags: &Vec<bool>) -> (r: ScanStats)
    ensures
        r.total == flags@.len(),
        r.contaminated == count_true(flags@),
{
    let mut contaminated: usize = 0;
    let mut k: usize = 0;
    proof {
        assert(flags@.subrange(0, 0) =~= Seq::<bool>::empty());
    }
    while k < flags.len()
        invariant
            k <= flags.len(),
            contaminated == count_true(flags@.subrange(0, k as int)),
        decreases flags.len() - k,
    {
        proof {
            assert(flags@.subrange(0, k + 1 as int).drop_last() =~= flags@.subrange(0, k as int));
            assert(flags@.subrange(0, k + 1 as int).last() == flags@[k as int]);
            lemma_count_true_bounds(flags@.subrange(0, k as int));
        }
        if flags[k] {
            contaminated = contaminated + 1;
        }
        k = k + 1;
    }
    proof {
        assert(flags@.subrange(0, flags.len() as int) =~= flags@);
    }
    ScanStats { total: flags.len(), contaminated }
}

/// Whether some identifier in the list has exactly these characters.
pub open spec fn contains_str(ids: Seq<String>, v: Seq<char>) -> bool {
    exists|i: int| 0 <= i < ids.len() && ids[i]@ == v
}

/// Decides whether the list already holds an identifier with these
/// characters.
fn vec_contains_string(v: &Vec<String>, s: &String) -> (r: bool)
    ensures
        r == contains_str(v@, s@),
{
    let mut i: usize = 0;
    while i < v.len()
        invariant
            i <= v.len(),
            forall|jj: int| 0 <= jj < i ==> v@[jj]@ != s@,
        decreases v.len() - i,
    {
        if v[i].eq(s) {
            return true;
        }
        i = i + 1;
    }
    false
}

/// Accumulates the identifiers of the contaminated documents into a
/// duplicate-free list: an identifier appears at most once however many
/// documents or fingerprints matched, and appears at all exactly when some
/// contaminated document bears it.
pub fn collect_bad_ids(ids: &Vec<String>, flags: &Vec<bool>) -> (r: Vec<String>)
    requires
        ids@.len() == flags@.len(),
    ensures
        forall|i: int, j: int| 0 <= i < j < r@.len() ==> r@[i]@ != r@[j]@,
        forall|v: Seq<char>|
            contains_str(r@, v) <==> exists|k: int|
                0 <= k < ids@.len() && flags@[k] && ids@[k]@ == v,
{
    let mut out: Vec<String> = Vec::new();
    let mut k: usize = 0;
    while k < flags.len()
        invariant
            k <= flags.len(),
            ids@.len() == flags@.len(),
            forall|i: int, j: int| 0 <= i < j < out@.len() ==> out@[i]@ != out@[j]@,
            forall|v: Seq<char>|
                contains_str(out@, v) <==> exists|kk: int|
                    0 <= kk < k && flags@[kk] && ids@[kk]@ == v,
        decreases flags.len() - k,
    {
        let ghost old_out = out@;
        if flags[k] && !vec_contains_string(&out, &ids[k]) {
            out.push(ids[k].clone());
            proof {
                assert(out@[out@.len() - 1]@ == ids@[k as int]@);
                assert forall|v: Seq<char>| contains_str(out@, v) implies (exists|kk: int|
                    0 <= kk < k + 1 && flags@[kk] && ids@[kk]@ == v) by {
                    let i = choose|i: int| 0 <= i < out@.len() && out@[i]@ == v;
                    if i < out@.len() - 1 {
                        assert(old_out[i]@ == v);
                        assert(contains_str(old_out, v));
                    } else {
                        assert(flags@[k as int] && ids@[k as int]@ == v);
                    }
                }
                assert forall|v: Seq<char>| (exists|kk: int|
                    0 <= kk < k + 1 && flags@[kk] && ids@[kk]@ == v) implies contains_str(
                    out@,
                    v,
                ) by {
                    let kk = choose|kk: int| 0 <= kk < k + 1 && flags@[kk] && ids@[kk]@ == v;
                    if kk < k {
                        assert(contains_str(old_out, v));
                        let i = choose|i: int| 0 <= i < old_out.len() && old_out[i]@ == v;
                        assert(out@[i]@ == v);
                    } else {
                        assert(out@[out@.len() - 1]@ == v);
                    }
                }
            }
        } else {
            proof {
                assert forall|v: Seq<char>| contains_str(out@, v) implies (exists|kk: int|
                    0 <= kk < k + 1 && flags@[kk] && ids@[kk]@ == v) by {
                    let kk = choose|kk: int| 0 <= kk < k && flags@[kk] && ids@[kk]@ == v;
                    assert(0 <= kk < k + 1 && flags@[kk] && ids@[kk]@ == v);
                }
                assert forall|v: Seq<char>| (exists|kk: int|
                    0 <= kk < k + 1 && flags@[kk] && ids@[kk]@ == v) implies contains_str(
                    out@,
                    v,
                ) by {
                    let kk = choose|kk: int| 0 <= kk < k + 1 && flags@[kk] && ids@[kk]@ == v;
                    if kk == k {
                        assert(flags@[k as int]);
                        assert(contains_str(out@, ids@[k as int]@));
                    }
                }
            }
        }
        k = k + 1;
    }
    out
}

} // verus!
