use decontam::index::{process_eval_set, RefRecord};
use decontam::ngrams::get_ngrams_idxs;
use decontam::scanner::{scan_annotated, scan_documents, scan_first_match};

fn reference() -> Vec<RefRecord> {
    vec![RefRecord { file_id: 0, line_num: 0, text: "The quick brown fox".to_string() }]
}

#[test]
fn build_indexes_every_reference_fingerprint() {
    let (idx, norms) = process_eval_set(&reference(), 2);
    assert_eq!(norms.len(), 1);
    assert_eq!(norms[0], "the quick brown fox");
    let fps = get_ngrams_idxs("the quick brown fox", 2);
    assert_eq!(fps.len(), 3);
    for (off, fp) in fps {
        assert!(idx.contains(fp));
        let occs = idx.get_occurrences(fp).unwrap();
        assert_eq!(occs.len(), 1);
        assert_eq!(occs[0].file_id, 0);
        assert_eq!(occs[0].line_num, 0);
        assert_eq!(occs[0].offset, off);
    }
}

#[test]
fn build_is_deterministic() {
    let (idx1, _) = process_eval_set(&reference(), 2);
    let (idx2, _) = process_eval_set(&reference(), 2);
    let fps = get_ngrams_idxs("the quick brown fox", 2);
    for (_, fp) in fps {
        assert_eq!(idx1.get_occurrences(fp).unwrap(), idx2.get_occurrences(fp).unwrap());
    }
}

#[test]
fn build_accumulates_repeated_fingerprints() {
    let docs = vec![
        RefRecord { file_id: 0, line_num: 0, text: "the quick brown fox".to_string() },
        RefRecord { file_id: 1, line_num: 5, text: "THE QUICK brown fox".to_string() },
    ];
    let (idx, _) = process_eval_set(&docs, 2);
    let fps = get_ngrams_idxs("the quick brown fox", 2);
    let occs = idx.get_occurrences(fps[0].1).unwrap();
    assert_eq!(occs.len(), 2);
    assert_eq!(occs[0].file_id, 0);
    assert_eq!(occs[0].line_num, 0);
    assert_eq!(occs[1].file_id, 1);
    assert_eq!(occs[1].line_num, 5);
}

#[test]
fn short_reference_contributes_no_entries() {
    // One token is fewer than the window size, so the record contributes no
    // fingerprint and even its own text scans clean.
    let docs = vec![RefRecord { file_id: 0, line_num: 0, text: "fox".to_string() }];
    let (idx, _) = process_eval_set(&docs, 2);
    let o = scan_annotated(&idx, "fox fox fox", 2);
    assert!(!o.contaminated);
}

#[test]
fn scan_unrelated_text_is_clean() {
    let (idx, _) = process_eval_set(&reference(), 2);
    let o = scan_annotated(&idx, "Completely unrelated text.", 2);
    assert!(!o.contaminated);
    assert_eq!(o.contamination.len(), 0);
    assert!(!scan_first_match(&idx, "Completely unrelated text.", 2));
}

#[test]
fn scan_overlapping_text_matches_every_window() {
    let (idx, _) = process_eval_set(&reference(), 2);
    let o = scan_annotated(&idx, "the Quick, brown fox jumps", 2);
    assert_eq!(o.normalized, "the quick brown fox jumps");
    assert!(o.contaminated);
    // Windows ["the","quick"], ["quick","brown"], ["brown","fox"] all hit;
    // ["fox","jumps"] does not.
    assert_eq!(o.contamination.len(), 3);
    assert_eq!(o.contamination[0].0, 0);
    assert_eq!(o.contamination[1].0, 4);
    assert_eq!(o.contamination[2].0, 10);
    for (_, occs) in &o.contamination {
        assert_eq!(occs.len(), 1);
        assert_eq!(occs[0].file_id, 0);
        assert_eq!(occs[0].line_num, 0);
    }
    assert!(scan_first_match(&idx, "the Quick, brown fox jumps", 2));
}

#[test]
fn scan_short_document_is_never_contaminated() {
    let (idx, _) = process_eval_set(&reference(), 2);
    // One token: fewer than the window size, so no fingerprints and no match.
    let o = scan_annotated(&idx, "fox", 2);
    assert!(!o.contaminated);
    assert_eq!(o.contamination.len(), 0);
}

#[test]
fn scan_documents_keep_only_clean_counts() {
    let (idx, _) = process_eval_set(&reference(), 2);
    let texts = vec![
        "Completely unrelated text.".to_string(),
        "the Quick, brown fox jumps".to_string(),
        "nothing in common here".to_string(),
    ];
    let filtered = scan_documents(&idx, &texts, 2, true);
    assert_eq!(filtered.stats.total, 3);
    assert_eq!(filtered.stats.contaminated, 1);
    assert_eq!(filtered.emit, vec![0, 2]);
    assert_eq!(filtered.emit.len(), filtered.stats.total - filtered.stats.contaminated);
    let unfiltered = scan_documents(&idx, &texts, 2, false);
    assert_eq!(unfiltered.emit, vec![0, 1, 2]);
    assert_eq!(unfiltered.stats.total, 3);
    assert_eq!(unfiltered.stats.contaminated, 1);
    assert_eq!(unfiltered.outcomes.len(), 3);
    assert!(unfiltered.outcomes[1].contaminated);
    assert!(!unfiltered.outcomes[0].contaminated);
}
