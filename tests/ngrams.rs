use mdlinker::ngrams::{up_to_n, Ngram};
use mdlinker::pattern::CompiledRegex;
use std::collections::HashSet;

const LOREM_IPSUM: &str = "Lorem ipsum dolor sit amet, consectetur adipiscing elit, sed do eiusmod tempor incididunt ut labore et dolore magna aliqua. Ut enim ad minim veniam, quis nostrud exercitation ullamco laboris nisi ut aliquip ex ea commodo consequat.";

const TRIGRAMS: &[&str] = &[
    "Lorem ipsum dolor", "ipsum dolor sit", "dolor sit amet", "consectetur adipiscing elit",
    "sed do eiusmod", "do eiusmod tempor", "eiusmod tempor incididunt", "tempor incididunt ut",
    "incididunt ut labore", "ut labore et", "labore et dolore", "et dolore magna",
    "dolore magna aliqua", "Ut enim ad", "enim ad minim", "ad minim veniam",
    "quis nostrud exercitation", "nostrud exercitation ullamco", "exercitation ullamco laboris",
    "ullamco laboris nisi", "laboris nisi ut", "nisi ut aliquip", "ut aliquip ex", "aliquip ex ea",
    "ex ea commodo", "ea commodo consequat",
];

const BIGRAMS: &[&str] = &[
    "Lorem ipsum", "ipsum dolor", "dolor sit", "sit amet", "consectetur adipiscing",
    "adipiscing elit", "sed do", "do eiusmod", "eiusmod tempor", "tempor incididunt",
    "incididunt ut", "ut labore", "labore et", "et dolore", "dolore magna", "magna aliqua",
    "Ut enim", "enim ad", "ad minim", "minim veniam", "quis nostrud", "nostrud exercitation",
    "exercitation ullamco", "ullamco laboris", "laboris nisi", "nisi ut", "ut aliquip",
    "aliquip ex", "ex ea", "ea commodo", "commodo consequat",
];

const MONOGRAMS: &[&str] = &[
    "Lorem", "ipsum", "dolor", "sit", "amet", "consectetur", "adipiscing", "elit", "sed", "do",
    "eiusmod", "tempor", "incididunt", "ut", "labore", "et", "dolore", "magna", "aliqua", "Ut",
    "enim", "ad", "minim", "veniam", "quis", "nostrud", "exercitation", "ullamco", "laboris",
    "nisi", "ut", "aliquip", "ex", "ea", "commodo", "consequat",
];

/// The n-grams of exactly `n` words, in order.
fn ngrams(text: &str, n: usize, boundary_pattern: &str) -> Vec<String> {
    let boundary = CompiledRegex::new(boundary_pattern).expect("Just a test");
    let spacing = CompiledRegex::new(" ").expect("Just a test");
    up_to_n(text, n, &boundary, &spacing)
        .into_iter()
        .filter(|g| g.nb_words() == n)
        .map(|g| g.as_str().to_string())
        .collect()
}

fn lowered(expected: &[&str]) -> Vec<String> {
    expected.iter().map(|s| s.to_lowercase()).collect()
}

#[test]
fn test_trigrams() {
    let out = ngrams(LOREM_IPSUM, 3, r"[,.]");
    assert_eq!(out, lowered(TRIGRAMS));
}

#[test]
fn test_bigrams() {
    let out = ngrams(LOREM_IPSUM, 2, r"[,.]");
    assert_eq!(out, lowered(BIGRAMS));
}

#[test]
fn test_monograms() {
    let out = ngrams(LOREM_IPSUM, 1, r"[,.]");
    assert_eq!(out, lowered(MONOGRAMS));
}

#[test]
fn test_up_to() {
    let boundary_regex = CompiledRegex::new(r"[,.]").expect("Just a test");
    let spacing_regex = CompiledRegex::new(r" ").expect("Just a test");
    for n in (1..=3).rev() {
        let up_to_out: HashSet<String> = up_to_n(LOREM_IPSUM, n, &boundary_regex, &spacing_regex)
            .into_iter()
            .map(|g| g.as_str().to_string())
            .collect();
        let mut out = HashSet::new();
        for m in 1..=n {
            out.extend(ngrams(LOREM_IPSUM, m, r"[,.]"));
        }
        assert_eq!(up_to_out, out, "ngrams_up_to {n:?} are not the same");
    }
}

#[test]
fn ngram_joins_lowercased_words() {
    let g = Ngram::new(&["Foo".to_string(), "BAR".to_string()]);
    assert_eq!(g.as_str(), "foo bar");
    assert_eq!(g.nb_words(), 2);
    assert_eq!(g.to_vec(), vec!["foo", "bar"]);
    assert_eq!(g.len(), 7);
    assert!(!g.is_empty());
    assert!(Ngram::new(&[]).is_empty());
}

#[test]
fn spacing_pattern_splits_words() {
    let boundary = CompiledRegex::new("___").unwrap();
    let spacing = CompiledRegex::new(r"-|_|\s").unwrap();
    let grams: Vec<String> = up_to_n("Foo-Bar___baz_qux", 2, &boundary, &spacing)
        .into_iter()
        .map(|g| g.as_str().to_string())
        .collect();
    assert_eq!(grams, vec!["foo", "bar", "foo bar", "baz", "qux", "baz qux"]);
}
