use docsearch::scorer::calculate_tf;
use docsearch::scorer::contains_substring;
use docsearch::scorer::contains_term;
use docsearch::scorer::count_matching_tokens;
use docsearch::text::normalize_term;
use docsearch::text::split_terms;
use docsearch::text::str_eq;
use docsearch::text::trim_str;

#[test]
fn tf_counts_exact_tokens() {
    assert_eq!(calculate_tf("lake", "lake lake river"), 2);
    assert_eq!(calculate_tf("river", "lake lake river"), 1);
    assert_eq!(calculate_tf("forest", "lake lake river"), 0);
}

#[test]
fn tf_lowercases_the_text() {
    assert_eq!(calculate_tf("lake", "Lake LAKE river"), 2);
}

#[test]
fn tf_trims_tokens() {
    // Tokens arise from splitting on spaces only; surrounding tabs and
    // newlines are trimmed off before the comparison.
    assert_eq!(calculate_tf("lake", "lake\n \tlake\t river"), 2);
}

#[test]
fn tf_substring_is_not_a_token() {
    // "riv" sits inside "river" but is an exact token of nothing.
    assert_eq!(calculate_tf("riv", "river river"), 0);
}

#[test]
fn tf_empty_term_counts_empty_tokens() {
    // Doubled spaces produce empty tokens, which an empty term matches.
    assert_eq!(calculate_tf("", "lake  river"), 1);
    assert_eq!(calculate_tf("", "lake river"), 0);
}

#[test]
fn containment_is_substring_matching() {
    assert!(contains_term("riv", "lake lake river"));
    assert!(contains_term("lake", "lakes"));
    assert!(!contains_term("ocean", "lake lake river"));
}

#[test]
fn containment_lowercases_the_text_but_not_the_term() {
    assert!(contains_term("river", "RIVER"));
    assert!(!contains_term("RIVER", "river"));
}

#[test]
fn containment_empty_needle_always_holds() {
    assert!(contains_term("", ""));
    assert!(contains_term("", "anything"));
}

#[test]
fn substring_search_exact_positions() {
    assert!(contains_substring("abcdef", "abc"));
    assert!(contains_substring("abcdef", "def"));
    assert!(contains_substring("abcdef", "cd"));
    assert!(!contains_substring("abcdef", "ca"));
    assert!(!contains_substring("ab", "abc"));
}

#[test]
fn token_counting_without_lowercasing() {
    assert_eq!(count_matching_tokens("lake", "lake Lake lake"), 2);
}

#[test]
fn normalize_trims_and_lowercases() {
    assert_eq!(normalize_term("  LaKe\t"), "lake");
    assert_eq!(normalize_term("RIVER"), "river");
    assert_eq!(normalize_term(" \t\n "), "");
}

#[test]
fn trim_removes_surrounding_whitespace_only() {
    assert_eq!(trim_str(" \t lake river \n"), "lake river");
    assert_eq!(trim_str("lake"), "lake");
    assert_eq!(trim_str(""), "");
    assert_eq!(trim_str("  "), "");
}

#[test]
fn split_keeps_empty_tokens() {
    assert_eq!(split_terms("lake river"), vec!["lake", "river"]);
    assert_eq!(split_terms(" lake  river "), vec!["", "lake", "", "river", ""]);
    assert_eq!(split_terms(""), vec![""]);
    assert_eq!(split_terms("one"), vec!["one"]);
}

#[test]
fn string_equality_by_characters() {
    assert!(str_eq("abc", "abc"));
    assert!(!str_eq("abc", "abd"));
    assert!(!str_eq("abc", "ab"));
    assert!(str_eq("", ""));
}
