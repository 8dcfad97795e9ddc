use decontam::assemble::{collect_bad_ids, select_outputs, tally_stats};
use decontam::config::{Config, DecontamError};

#[test]
fn config_rejects_window_size_zero() {
    assert_eq!(Config::new(0, false), Err(DecontamError::ConfigError));
    assert_eq!(Config::new(0, true), Err(DecontamError::ConfigError));
}

#[test]
fn config_accepts_positive_window_size() {
    let c = Config::new(2, true).unwrap();
    assert_eq!(c.ngram_size, 2);
    assert!(c.keep_only_clean);
    assert!(Config::new(1, false).is_ok());
}

#[test]
fn select_outputs_keep_only_clean() {
    let flags = vec![true, false, true];
    assert_eq!(select_outputs(&flags, true), vec![1]);
    assert_eq!(select_outputs(&flags, false), vec![0, 1, 2]);
    let clean = vec![false, false];
    assert_eq!(select_outputs(&clean, true), vec![0, 1]);
}

#[test]
fn tally_counts_against_prefilter_total() {
    let flags = vec![true, false, true];
    let stats = tally_stats(&flags);
    assert_eq!(stats.total, 3);
    assert_eq!(stats.contaminated, 2);
    let none = tally_stats(&Vec::new());
    assert_eq!(none.total, 0);
    assert_eq!(none.contaminated, 0);
}

#[test]
fn bad_ids_are_deduplicated() {
    let ids = vec!["a".to_string(), "b".to_string(), "a".to_string()];
    let flags = vec![true, false, true];
    let bad = collect_bad_ids(&ids, &flags);
    assert_eq!(bad, vec!["a".to_string()]);
}

#[test]
fn bad_ids_keep_every_contaminated_identifier_once() {
    let ids = vec!["x".to_string(), "y".to_string(), "x".to_string(), "z".to_string()];
    let flags = vec![true, true, true, false];
    let bad = collect_bad_ids(&ids, &flags);
    assert_eq!(bad.len(), 2);
    assert!(bad.contains(&"x".to_string()));
    assert!(bad.contains(&"y".to_string()));
    assert!(!bad.contains(&"z".to_string()));
}

#[test]
fn bad_ids_empty_when_nothing_contaminated() {
    let ids = vec!["a".to_string(), "b".to_string()];
    let flags = vec![false, false];
    assert!(collect_bad_ids(&ids, &flags).is_empty());
}
