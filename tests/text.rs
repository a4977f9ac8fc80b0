use continuum_core::adapters::GooseAdapter;
use continuum_core::repetition::{label_pairs, label_texts, max_label_count};
use continuum_core::text::{
    char_is_whitespace, collapse_whitespace, fingerprint_of, join_present, push_decimal, split_after_last,
    split_at_first,
};

#[test]
fn collapse_joins_words_with_single_spaces() {
    assert_eq!(collapse_whitespace("  a \t b\n\nc  "), "a b c");
    assert_eq!(collapse_whitespace(" \u{3000}\u{a0} "), "");
    assert_eq!(collapse_whitespace("one"), "one");
}

#[test]
fn decimal_digits() {
    let mut s = String::from("n=");
    push_decimal(&mut s, 0);
    push_decimal(&mut s, 1207);
    assert_eq!(s, "n=01207");
}

#[test]
fn fingerprint_depends_on_text() {
    assert_eq!(fingerprint_of(""), 0);
    assert_eq!(fingerprint_of("a"), 97);
    assert_eq!(fingerprint_of("ab"), 97 * 31 + 98);
    assert_ne!(fingerprint_of("ab"), fingerprint_of("ba"));
}

#[test]
fn join_skips_missing_parts() {
    let parts = vec![None, Some("x".to_string()), None, Some("y".to_string())];
    assert_eq!(join_present(&parts, "\n"), "x\ny");
    assert_eq!(join_present(&[None], "-"), "");
}

#[test]
fn split_helpers() {
    assert_eq!(split_at_first("ab#cd#e", '#'), ("ab".to_string(), true));
    assert_eq!(split_at_first("abc", '#'), ("abc".to_string(), false));
    assert_eq!(split_after_last("ab#cd#e", '#'), Some("e".to_string()));
    assert_eq!(split_after_last("abc", '#'), None);
    assert_eq!(split_after_last("abc#", '#'), Some(String::new()));
}

#[test]
fn goose_pseudo_path_session() {
    assert_eq!(
        GooseAdapter::session_id_of("/db/sessions.db#test_session"),
        Some("test_session".to_string())
    );
    assert_eq!(GooseAdapter::session_id_of("/db/sessions.db"), None);
}

#[test]
fn texts_labelled_by_first_equal_position() {
    let keys: Vec<String> = ["b", "a", "b", "c", "a"].iter().map(|s| s.to_string()).collect();
    assert_eq!(label_texts(&keys), vec![0, 1, 0, 3, 1]);
}

#[test]
fn pairs_labelled_by_first_equal_position() {
    assert_eq!(label_pairs(&[1, 1, 2, 1], &[5, 6, 5, 5]), vec![0, 1, 2, 0]);
}

#[test]
fn largest_label_count() {
    assert_eq!(max_label_count(&[0, 1, 0, 3, 1, 0]), 3);
    assert_eq!(max_label_count(&[]), 0);
}

#[test]
fn white_space_set() {
    for c in [' ', '\t', '\n', '\r', '\u{b}', '\u{c}', '\u{85}', '\u{a0}', '\u{2003}', '\u{3000}'] {
        assert!(char_is_whitespace(c));
        assert_eq!(char_is_whitespace(c), c.is_whitespace());
    }
    for c in ['a', '\u{200b}', '\u{180e}', '_'] {
        assert!(!char_is_whitespace(c));
        assert_eq!(char_is_whitespace(c), c.is_whitespace());
    }
}
