use decontam::normalize::normalize_text;

#[test]
fn normalize_lowercases_and_keeps_words() {
    assert_eq!(normalize_text("The quick brown fox"), "the quick brown fox");
}

#[test]
fn normalize_drops_ascii_punctuation() {
    assert_eq!(normalize_text("the Quick, brown fox jumps"), "the quick brown fox jumps");
    assert_eq!(normalize_text("Hello, world!!"), "hello world");
}

#[test]
fn normalize_maps_newline_and_tab_to_space() {
    assert_eq!(normalize_text("a\nb\tc"), "a b c");
}

#[test]
fn normalize_collapses_whitespace_and_trims() {
    assert_eq!(normalize_text("  Hello,   WORLD!!  "), "hello world");
    assert_eq!(normalize_text("   "), "");
    assert_eq!(normalize_text(""), "");
}

#[test]
fn normalize_is_idempotent_on_samples() {
    let samples = [
        "The quick brown fox",
        "  Mixed\tCASE\n with -- punctuation!?  ",
        "",
        "ALL CAPS AND   SPACES",
        "tabs\t\tand\n\nnewlines",
        "ÉCOLE grande",
        "a\u{a0}b",
    ];
    for s in samples {
        let once = normalize_text(s);
        let twice = normalize_text(&once);
        assert_eq!(twice, once);
    }
}

#[test]
fn normalize_lowercases_beyond_ascii() {
    // Exercises the Unicode lowering path: an implementation that handed
    // characters back unchanged would fail here.
    assert_eq!(normalize_text("ÉCOLE"), "école");
}

#[test]
fn normalize_treats_unicode_whitespace_as_whitespace() {
    // U+00A0 (no-break space) has the White_Space property, so it separates
    // words and is collapsed to a single ASCII space.
    assert_eq!(normalize_text("a\u{a0}b"), "a b");
}
