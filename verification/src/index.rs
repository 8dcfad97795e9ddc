//! The reference fingerprint index: a mapping from n-gram fingerprint to the
//! ordered list of reference occurrences of that fingerprint. Built once
//! from the whole reference corpus, then queried read-only.

use vstd::prelude::*;
use std::collections::HashMap;
use crate::ngrams::{fingerprints_of, get_ngrams_idxs};
use crate::normalize::{normalize_spec, normalize_text};

verus! {

broadcast use vstd::std_specs::hash::group_hash_axioms;

/// One place in the reference corpus where a fingerprint occurs.
#[derive(Clone, Copy, Debug, PartialEq, Eq, Structural)]
pub struct Occurrence {
    /// Index of the reference file the occurrence lies in.
    pub file_id: usize,
    /// Line number of the record within that file.
    pub line_num: usize,
    /// Byte offset of the window's first token in the normalized text.
    pub offset: usize,
}

/// One reference record handed to the index builder: where it came from and
/// its raw text.
pub struct RefRecord {
    /// Index of the file the record came from.
    pub file_id: usize,
    /// Line number of the record within that file.
    pub line_num: usize,
    /// The record's raw text.
    pub text: String,
}

/// The fingerprints of one reference record, over its normalized text.
pub open spec fn doc_fingerprints(doc: RefRecord, n: int) -> Seq<(usize, u64)> {
    fingerprints_of(normalize_spec(doc.text@), n)
}

/// One insertion: append the occurrence to the fingerprint's list, starting
/// a fresh list for a fingerprint not seen before.
pub open spec fn insert_occ(m: Map<u64, Seq<Occurrence>>, fp: u64, occ: Occurrence) -> Map<
    u64,
    Seq<Occurrence>,
> {
    m.insert(
        fp,
        (if m.contains_key(fp) {
            m[fp]
        } else {
            Seq::empty()
        }).push(occ),
    )
}

/// The index after inserting the fingerprints of one record, in window
/// order.
pub open spec fn index_add_doc_rec(
    m: Map<u64, Seq<Occurrence>>,
    fps: Seq<(usize, u64)>,
    file_id: usize,
    line_num: usize,
) -> Map<u64, Seq<Occurrence>>
    decreases fps.len(),
{
    if fps.len() == 0 {
        m
    } else {
        insert_occ(
            index_add_doc_rec(m, fps.drop_last(), file_id, line_num),
            fps.last().1,
            Occurrence { file_id, line_num, offset: fps.last().0 },
        )
    }
}

/// The index contents after processing a sequence of reference records in
/// order: a pure function of the records and the window size.
pub open spec fn index_of_docs(docs: Seq<RefRecord>, n: int) -> Map<u64, Seq<Occurrence>>
    decreases docs.len(),
{
    if docs.len() == 0 {
        Map::empty()
    } else {
        index_add_doc_rec(
            index_of_docs(docs.drop_last(), n),
            doc_fingerprints(docs.last(), n),
            docs.last().file_id,
            docs.last().line_num,
        )
    }
}

/// Whether some window of some record in the corpus has this fingerprint.
pub open spec fn some_doc_has(docs: Seq<RefRecord>, n: int, fp: u64) -> bool {
    exists|i: int, j: int|
        0 <= i < docs.len() && 0 <= j < doc_fingerprints(docs[i], n).len() && doc_fingerprints(
            docs[i],
            n,
        )[j].1 == fp
}

/// Whether an occurrence names a real place in the corpus: a record with its
/// file and line whose window at that offset has this fingerprint.
pub open spec fn occ_is_real(docs: Seq<RefRecord>, n: int, fp: u64, occ: Occurrence) -> bool {
    exists|i: int, j: int|
        0 <= i < docs.len() && docs[i].file_id == occ.file_id && docs[i].line_num == occ.line_num
            && 0 <= j < doc_fingerprints(docs[i], n).len() && doc_fingerprints(docs[i], n)[j] == (
        occ.offset,
        fp,
        )
}

/// Pushing keeps the old elements and adds the new one, and nothing else.
proof fn lemma_push_contains<A>(s: Seq<A>, x: A, y: A)
    ensures
        s.push(x).contains(y) <==> s.contains(y) || x == y,
{
    if s.push(x).contains(y) {
        let i = choose|i: int| 0 <= i < s.push(x).len() && s.push(x)[i] == y;
        if i < s.len() {
            assert(s[i] == y);
        }
    }
    if s.contains(y) {
        let i = choose|i: int| 0 <= i < s.len() && s[i] == y;
        assert(s.push(x)[i] == y);
    }
    assert(s.push(x)[s.len() as int] == x);
}

/// What one record's insertions do to a fingerprint's presence: it is
/// present afterwards exactly when it was present before or belongs to the
/// record.
proof fn lemma_add_rec_keys(
    m: Map<u64, Seq<Occurrence>>,
    fps: Seq<(usize, u64)>,
    file_id: usize,
    line_num: usize,
    fp: u64,
)
    ensures
        index_add_doc_rec(m, fps, file_id, line_num).contains_key(fp) <==> (m.contains_key(fp)
            || exists|j: int| 0 <= j < fps.len() && (#[trigger] fps[j]).1 == fp),
    decreases fps.len(),
{
    if fps.len() == 0 {
    } else {
        let prev = index_add_doc_rec(m, fps.drop_last(), file_id, line_num);
        lemma_add_rec_keys(m, fps.drop_last(), file_id, line_num, fp);
        let lastp = fps.last();
        let cur = index_add_doc_rec(m, fps, file_id, line_num);
        assert(cur == insert_occ(
            prev,
            lastp.1,
            Occurrence { file_id, line_num, offset: lastp.0 },
        ));
        if cur.contains_key(fp) {
            if fp == lastp.1 {
                assert(fps[fps.len() - 1].1 == fp);
            } else if !m.contains_key(fp) {
                let j = choose|j: int|
                    0 <= j < fps.drop_last().len() && (#[trigger] fps.drop_last()[j]).1 == fp;
                assert(fps[j].1 == fp);
            }
        }
        if m.contains_key(fp) || exists|j: int| 0 <= j < fps.len() && (#[trigger] fps[j]).1 == fp {
            if !m.contains_key(fp) {
                let j = choose|j: int| 0 <= j < fps.len() && (#[trigger] fps[j]).1 == fp;
                if j < fps.len() - 1 {
                    assert(fps.drop_last()[j].1 == fp);
                }
            }
            assert(cur.contains_key(fp));
        }
    }
}

/// What one record's insertions do to one listed occurrence: it was listed
/// before, or it names this record and one of its windows.
proof fn lemma_add_rec_occ(
    m: Map<u64, Seq<Occurrence>>,
    fps: Seq<(usize, u64)>,
    file_id: usize,
    line_num: usize,
    fp: u64,
    occ: Occurrence,
)
    ensures
        (index_add_doc_rec(m, fps, file_id, line_num).contains_key(fp) && index_add_doc_rec(
            m,
            fps,
            file_id,
            line_num,
        )[fp].contains(occ)) ==> ((m.contains_key(fp) && m[fp].contains(occ)) || (occ.file_id
            == file_id && occ.line_num == line_num && exists|j: int|
            0 <= j < fps.len() && #[trigger] fps[j] == (occ.offset, fp))),
    decreases fps.len(),
{
    if fps.len() == 0 {
    } else {
        let prev = index_add_doc_rec(m, fps.drop_last(), file_id, line_num);
        lemma_add_rec_occ(m, fps.drop_last(), file_id, line_num, fp, occ);
        let lastp = fps.last();
        let occ_new = Occurrence { file_id, line_num, offset: lastp.0 };
        let cur = index_add_doc_rec(m, fps, file_id, line_num);
        assert(cur == insert_occ(prev, lastp.1, occ_new));
        if cur.contains_key(fp) && cur[fp].contains(occ) {
            if fp == lastp.1 {
                let base: Seq<Occurrence> = if prev.contains_key(fp) {
                    prev[fp]
                } else {
                    Seq::empty()
                };
                assert(cur[fp] == base.push(occ_new));
                lemma_push_contains(base, occ_new, occ);
                if occ == occ_new {
                    assert(fps[fps.len() - 1] == (occ.offset, fp));
                } else {
                    assert(prev.contains_key(fp) && prev[fp].contains(occ));
                    if !(m.contains_key(fp) && m[fp].contains(occ)) {
                        let j = choose|j: int|
                            0 <= j < fps.drop_last().len() && #[trigger] fps.drop_last()[j] == (
                            occ.offset,
                            fp,
                            );
                        assert(fps[j] == (occ.offset, fp));
                    }
                }
            } else {
                assert(cur[fp] == prev[fp]);
                if !(m.contains_key(fp) && m[fp].contains(occ)) {
                    let j = choose|j: int|
                        0 <= j < fps.drop_last().len() && #[trigger] fps.drop_last()[j] == (
                        occ.offset,
                        fp,
                        );
                    assert(fps[j] == (occ.offset, fp));
                }
            }
        }
    }
}

/// One listed occurrence of the whole build names a real place in the
/// corpus.
proof fn lemma_docs_occ(docs: Seq<RefRecord>, n: int, fp: u64, occ: Occurrence)
    ensures
        (index_of_docs(docs, n).contains_key(fp) && index_of_docs(docs, n)[fp].contains(occ))
            ==> occ_is_real(docs, n, fp, occ),
    decreases docs.len(),
{
    if docs.len() == 0 {
    } else {
        let rest = docs.drop_last();
        let last = docs.last();
        let prev = index_of_docs(rest, n);
        let cur = index_of_docs(docs, n);
        lemma_docs_occ(rest, n, fp, occ);
        lemma_add_rec_occ(prev, doc_fingerprints(last, n), last.file_id, last.line_num, fp, occ);
        assert(cur == index_add_doc_rec(
            prev,
            doc_fingerprints(last, n),
            last.file_id,
            last.line_num,
        ));
        if cur.contains_key(fp) && cur[fp].contains(occ) {
            if prev.contains_key(fp) && prev[fp].contains(occ) {
                let (i, j) = choose|i: int, j: int|
                    0 <= i < rest.len() && rest[i].file_id == occ.file_id && rest[i].line_num
                        == occ.line_num && 0 <= j < doc_fingerprints(rest[i], n).len()
                        && doc_fingerprints(rest[i], n)[j] == (occ.offset, fp);
                assert(rest[i] == docs[i]);
                assert(occ_is_real(docs, n, fp, occ));
            } else {
                assert(occ.file_id == last.file_id && occ.line_num == last.line_num);
                let j = choose|j: int|
                    0 <= j < doc_fingerprints(last, n).len() && #[trigger] doc_fingerprints(
                        last,
                        n,
                    )[j] == (occ.offset, fp);
                assert(docs[docs.len() - 1] == last);
                assert(occ_is_real(docs, n, fp, occ));
            }
        }
    }
}

/// Reference index completeness: a fingerprint is present exactly when some
/// window of some reference record produced it — so an absent fingerprint
/// means no reference record contains that token sequence — and every listed
/// occurrence names a real place in the reference corpus.
pub proof fn lemma_index_complete(docs: Seq<RefRecord>, n: int, fp: u64)
    ensures
        index_of_docs(docs, n).contains_key(fp) <==> some_doc_has(docs, n, fp),
        forall|occ: Occurrence|
            (index_of_docs(docs, n).contains_key(fp) && index_of_docs(docs, n)[fp].contains(occ))
                ==> occ_is_real(docs, n, fp, occ),
    decreases docs.len(),
{
    assert forall|occ: Occurrence|
        (index_of_docs(docs, n).contains_key(fp) && index_of_docs(docs, n)[fp].contains(
            occ,
        )) implies occ_is_real(docs, n, fp, occ) by {
        lemma_docs_occ(docs, n, fp, occ);
    }
    if docs.len() == 0 {
        assert(!index_of_docs(docs, n).contains_key(fp));
    } else {
        let rest = docs.drop_last();
        let last = docs.last();
        let prev = index_of_docs(rest, n);
        let cur = index_of_docs(docs, n);
        lemma_index_complete(rest, n, fp);
        lemma_add_rec_keys(prev, doc_fingerprints(last, n), last.file_id, last.line_num, fp);
        assert(cur == index_add_doc_rec(
            prev,
            doc_fingerprints(last, n),
            last.file_id,
            last.line_num,
        ));
        if cur.contains_key(fp) {
            if prev.contains_key(fp) {
                let (i, j) = choose|i: int, j: int|
                    0 <= i < rest.len() && 0 <= j < doc_fingerprints(rest[i], n).len()
                        && doc_fingerprints(rest[i], n)[j].1 == fp;
                assert(rest[i] == docs[i]);
                assert(some_doc_has(docs, n, fp));
            } else {
                let j = choose|j: int|
                    0 <= j < doc_fingerprints(last, n).len() && (#[trigger] doc_fingerprints(
                        last,
                        n,
                    )[j]).1 == fp;
                assert(docs[docs.len() - 1] == last);
                assert(some_doc_has(docs, n, fp));
            }
        }
        if some_doc_has(docs, n, fp) {
            let (i, j) = choose|i: int, j: int|
                0 <= i < docs.len() && 0 <= j < doc_fingerprints(docs[i], n).len()
                    && doc_fingerprints(docs[i], n)[j].1 == fp;
            if i < docs.len() - 1 {
                assert(rest[i] == docs[i]);
                assert(some_doc_has(rest, n, fp));
                assert(prev.contains_key(fp));
            } else {
                assert(docs[i] == last);
            }
            assert(cur.contains_key(fp));
        }
    }
}

/// A reference record whose normalized text has fewer than `n` tokens
/// contributes no entry to the index.
pub proof fn lemma_few_tokens_no_reference_entries(
    m: Map<u64, Seq<Occurrence>>,
    doc: RefRecord,
    n: int,
)
    requires
        crate::ngrams::tokens_of(normalize_spec(doc.text@)).len() < n,
    ensures
        index_add_doc_rec(m, doc_fingerprints(doc, n), doc.file_id, doc.line_num) == m,
{
    crate::ngrams::lemma_few_tokens_no_fingerprints(normalize_spec(doc.text@), n);
}

/// Determinism: the index contents are a pure function of the reference
/// records and the window size, so two builds over identical corpora with
/// identical configuration hold identical contents, however the work was
/// scheduled.
pub proof fn lemma_index_deterministic(
    m1: Map<u64, Seq<Occurrence>>,
    m2: Map<u64, Seq<Occurrence>>,
    docs: Seq<RefRecord>,
    n: int,
)
    requires
        m1 == index_of_docs(docs, n),
        m2 == index_of_docs(docs, n),
    ensures
        m1 == m2,
{
}

/// The reference index: fingerprint to ordered occurrence list.
pub struct ReferenceIndex {
    map: HashMap<u64, Vec<Occurrence>>,
}

impl View for ReferenceIndex {
    type V = Map<u64, Seq<Occurrence>>;

    closed spec fn view(&self) -> Map<u64, Seq<Occurrence>> {
        self.map@.map_values(|v: Vec<Occurrence>| v@)
    }
}

impl ReferenceIndex {
    /// Creates an empty index.
    pub fn new() -> (r: ReferenceIndex)
        ensures
            r@ == Map::<u64, Seq<Occurrence>>::empty(),
    {
        let r = ReferenceIndex { map: HashMap::new() };
        proof {
            assert(r@ =~= Map::<u64, Seq<Occurrence>>::empty());
        }
        r
    }

    /// Appends one occurrence to one fingerprint's list; concurrent inserts
    /// of the same fingerprint from different records all accumulate.
    pub fn insert_fingerprint(&mut self, fp: u64, occ: Occurrence)
        ensures
            final(self)@ == insert_occ(old(self)@, fp, occ),
    {
        let mut v: Vec<Occurrence> = match self.map.remove(&fp) {
            Some(v) => v,
            None => Vec::new(),
        };
        v.push(occ);
        self.map.insert(fp, v);
        proof {
            assert(self@ =~= insert_occ(old(self)@, fp, occ));
        }
    }

    /// Whether the index holds the fingerprint.
    pub fn contains(&self, fp: u64) -> (r: bool)
        ensures
            r == self@.contains_key(fp),
    {
        self.map.contains_key(&fp)
    }

    /// The occurrence list of a fingerprint, when the index holds it.
    pub fn get_occurrences(&self, fp: u64) -> (r: Option<&Vec<Occurrence>>)
        ensures
            match r {
                Some(v) => self@.contains_key(fp) && v@ == self@[fp],
                None => !self@.contains_key(fp),
            },
    {
        self.map.get(&fp)
    }
}

/// Builds the reference index from the whole reference corpus: normalizes
/// each record, extracts its fingerprints, and accumulates every occurrence.
/// Also returns each record's normalized text, in record order, for
/// downstream annotation.
pub fn process_eval_set(docs: &Vec<RefRecord>, ngram_size: usize) -> (r: (
    ReferenceIndex,
    Vec<String>,
))
    requires
        ngram_size >= 1,
    ensures
        r.0@ == index_of_docs(docs@, ngram_size as int),
        r.1@.len() == docs@.len(),
        forall|i: int| 0 <= i < docs@.len() ==> r.1@[i]@ == normalize_spec(docs@[i].text@),
{
    let mut idx = ReferenceIndex::new();
    let mut norms: Vec<String> = Vec::new();
    let mut i: usize = 0;
    proof {
        assert(docs@.subrange(0, 0) =~= Seq::<RefRecord>::empty());
    }
    while i < docs.len()
        invariant
            i <= docs.len(),
            ngram_size >= 1,
            idx@ == index_of_docs(docs@.subrange(0, i as int), ngram_size as int),
            norms@.len() == i,
            forall|jj: int| 0 <= jj < i ==> norms@[jj]@ == normalize_spec(docs@[jj].text@),
        decreases docs.len() - i,
    {
        let ghost prev = index_of_docs(docs@.subrange(0, i as int), ngram_size as int);
        let doc = &docs[i];
        let norm = normalize_text(doc.text.as_str());
        let fps = get_ngrams_idxs(norm.as_str(), ngram_size);
        proof {
            assert(fps@ == doc_fingerprints(docs@[i as int], ngram_size as int));
            assert(fps@.subrange(0, 0) =~= Seq::<(usize, u64)>::empty());
        }
        let mut k: usize = 0;
        while k < fps.len()
            invariant
                k <= fps.len(),
                fps@ == doc_fingerprints(docs@[i as int], ngram_size as int),
                i < docs.len(),
                doc == &docs@[i as int],
                idx@ == index_add_doc_rec(
                    prev,
                    fps@.subrange(0, k as int),
                    docs@[i as int].file_id,
                    docs@[i as int].line_num,
                ),
            decreases fps.len() - k,
        {
            proof {
                assert(fps@.subrange(0, k + 1 as int).drop_last() =~= fps@.subrange(0, k as int));
                assert(fps@.subrange(0, k + 1 as int).last() == fps@[k as int]);
            }
            let (off, fp) = fps[k];
            idx.insert_fingerprint(
                fp,
                Occurrence { file_id: doc.file_id, line_num: doc.line_num, offset: off },
            );
            k = k + 1;
        }
        norms.push(norm);
        proof {
            assert(fps@.subrange(0, fps@.len() as int) =~= fps@);
            assert(docs@.subrange(0, i + 1 as int).drop_last() =~= docs@.subrange(0, i as int));
            assert(docs@.subrange(0, i + 1 as int).last() == docs@[i as int]);
        }
        i = i + 1;
    }
    proof {
        assert(docs@.subrange(0, docs.len() as int) =~= docs@);
    }
    (idx, norms)
}

} // verus!
