use decontam::ngrams::get_ngrams_idxs;

#[test]
fn ngrams_windows_and_offsets() {
    // Tokens: "the"@0, "quick"@4, "brown"@10, "fox"@16 -> three windows of 2.
    let fps = get_ngrams_idxs("the quick brown fox", 2);
    assert_eq!(fps.len(), 3);
    assert_eq!(fps[0].0, 0);
    assert_eq!(fps[1].0, 4);
    assert_eq!(fps[2].0, 10);
}

#[test]
fn ngrams_too_few_tokens_yield_nothing() {
    assert_eq!(get_ngrams_idxs("hello", 2).len(), 0);
    assert_eq!(get_ngrams_idxs("", 1).len(), 0);
    assert_eq!(get_ngrams_idxs("one two", 3).len(), 0);
}

#[test]
fn ngrams_exact_window_count() {
    let fps = get_ngrams_idxs("a b c d e", 3);
    assert_eq!(fps.len(), 3);
}

#[test]
fn ngrams_are_deterministic() {
    let a = get_ngrams_idxs("the quick brown fox", 2);
    let b = get_ngrams_idxs("the quick brown fox", 2);
    assert_eq!(a, b);
}

#[test]
fn ngrams_same_tokens_same_fingerprints() {
    // The fingerprint depends on the token sequence, not on the offsets, so
    // equal token sequences hash equally wherever they sit.
    let a = get_ngrams_idxs("the quick brown", 2);
    let b = get_ngrams_idxs("xx the quick brown", 2);
    assert_eq!(a[0].1, b[1].1);
    assert_eq!(a[1].1, b[2].1);
}

#[test]
fn ngrams_distinct_windows_differ() {
    let fps = get_ngrams_idxs("the quick brown fox", 2);
    assert_ne!(fps[0].1, fps[1].1);
    assert_ne!(fps[1].1, fps[2].1);
}

#[test]
fn ngrams_segmentation_splits_words() {
    // An implementation whose segmentation handed the whole string back as
    // one segment would emit a single token and no window of two.
    let fps = get_ngrams_idxs("ab cd", 2);
    assert_eq!(fps.len(), 1);
    let fps1 = get_ngrams_idxs("ab cd", 1);
    assert_eq!(fps1.len(), 2);
}
