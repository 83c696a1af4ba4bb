use mdlinker::config::Config;
use mdlinker::document::{MdNode, NodeKind, SourceFile, YamlFrontMatter};
use mdlinker::pattern::CompiledRegex;
use mdlinker::rules::SimilarFilename;
use mdlinker::{check, OutputReport};

fn node(kind: NodeKind, text: &str, line: usize, column: usize, parent: Option<usize>) -> MdNode {
    MdNode { kind, text: text.to_string(), line, column, parent }
}

fn page(path: &str) -> SourceFile {
    SourceFile {
        path: path.to_string(),
        source: String::new(),
        nodes: vec![node(NodeKind::Document, "", 1, 1, None)],
        front_matter: YamlFrontMatter::default(),
    }
}

const PAGES: &[&str] = &[
    "./tests/logseq/similar_filename/assets/pages/foo.md",
    "./tests/logseq/similar_filename/assets/pages/foo___bar.md",
    "./tests/logseq/similar_filename/assets/pages/fooo.md",
    "./tests/logseq/similar_filename/assets/pages/barr.md",
];

fn run(pairs: Vec<(String, String)>) -> OutputReport {
    let files: Vec<SourceFile> = PAGES.iter().map(|p| page(p)).collect();
    let mut config = Config::with_files(PAGES.iter().map(|p| p.to_string()).collect()).expect("This is a constant");
    config.filename_match_threshold = 1;
    config.ignore_word_pairs = pairs;
    match check(&config, &files) {
        Ok(r) => r,
        Err(e) => panic!("There should have been no error. Found: {e:?}"),
    }
}

#[test]
fn groups_first_element_same() {
    let report = run(vec![]);
    assert_eq!(report.reports.len(), 2, "{:?}", report.reports);
}

#[test]
fn test_ignore_word_pairs1() {
    let report = run(vec![("foo".to_string(), "fooo".to_string())]);
    assert_eq!(report.reports.len(), 1, "{:?}", report.reports);
}

#[test]
fn test_ignore_word_pairs2() {
    let report = run(vec![
        ("bar".to_string(), "barr".to_string()),
        ("foo".to_string(), "fooo".to_string()),
    ]);
    assert_eq!(report.reports.len(), 0, "{:?}", report.reports);
}

#[test]
fn test_logseq_same_group() {
    let spacing = CompiledRegex::new("-|_|\\s").expect("Constant");
    let cases = vec![
        ("fooo", "foo___bar", false),
        ("fooo", "foo", false),
        ("foo___bar", "fooo", false),
        ("foo___bar", "foo", true),
        ("foo___bar", "barr", false),
        ("foo", "fooo", false),
        ("foo", "foo___bar", true),
        ("foo", "barr", false),
        ("barr", "fooo", false),
        ("barr", "foo___bar", false),
        ("barr", "foo", false),
    ];
    for (f1, f2, expected) in cases {
        let result = SimilarFilename::skip_special_cases(f1, f2, &spacing).expect("These are all constants");
        assert_eq!(result, expected, "Failure on pair {f1:?} : {f2:?}, expected {expected:?}, got {result:?}");
    }
}

#[test]
fn group_pair_is_not_reported() {
    let files = vec![page("foo.md"), page("foo___bar.md")];
    let spacing = CompiledRegex::new("_|___").unwrap();
    assert!(SimilarFilename::skip_special_cases("foo.md", "foo___bar.md", &spacing).unwrap());
    let mut config = Config::with_files(vec!["foo.md".to_string(), "foo___bar.md".to_string()]).unwrap();
    config.filename_match_threshold = 1;
    config.filename_spacing_pattern = "_|___".to_string();
    assert!(check(&config, &files).unwrap().similar_filenames().is_empty());
}

#[test]
fn near_duplicate_is_reported() {
    let files = vec![page("foo.md"), page("fooo.md")];
    let mut config = Config::with_files(vec!["foo.md".to_string(), "fooo.md".to_string()]).unwrap();
    config.filename_match_threshold = 1;
    let found = check(&config, &files).unwrap().similar_filenames();
    assert_eq!(found.len(), 1);
    assert!(found[0].score > 0);
    assert_eq!(found[0].id.0, "similar::name::foo::fooo");
}

#[test]
fn pair_id_is_symmetric() {
    let spacing = CompiledRegex::new("-|_|\\s").unwrap();
    let g1 = mdlinker::ngrams::Ngram::new(&["foo".to_string()]);
    let g2 = mdlinker::ngrams::Ngram::new(&["fooo".to_string()]);
    let a = SimilarFilename::new("dir/fooo.md", &g2, "dir/foo.md", &g1, &spacing, 5).unwrap();
    let b = SimilarFilename::new("dir/foo.md", &g1, "dir/fooo.md", &g2, &spacing, 5).unwrap();
    assert_eq!(a.id, b.id);
    assert_eq!(a.id.0, "similar::name::foo::fooo");
    assert_eq!(a.file1_ngram_span.offset, 4);
    assert_eq!(b.file2_ngram_span.offset, "dir/foo.md\n".len() + 4);
}

#[test]
fn missing_ngram_is_an_error() {
    let spacing = CompiledRegex::new("-|_|\\s").unwrap();
    let g = mdlinker::ngrams::Ngram::new(&["zzz".to_string()]);
    let r = SimilarFilename::new("a.md", &g, "b.md", &g, &spacing, 5);
    assert!(matches!(r, Err(mdlinker::rules::similar_filename::CalculateError::MissingSubstringError(_))));
}

#[test]
fn group_names_are_escaped() {
    let spacing = CompiledRegex::new("-|_|\\s").unwrap();
    assert!(SimilarFilename::skip_special_cases("a+b.md", "a+b_c.md", &spacing).unwrap());
    assert!(!SimilarFilename::skip_special_cases("a+b.md", "aab_c.md", &spacing).unwrap());
}

#[test]
fn report_locates_both_ngrams() {
    let spacing = CompiledRegex::new("-|_|\\s").unwrap();
    let g1 = mdlinker::ngrams::Ngram::new(&["bar".to_string()]);
    let g2 = mdlinker::ngrams::Ngram::new(&["barr".to_string()]);
    let r = SimilarFilename::new("Dir/Foo_Bar.md", &g1, "dir/barr.md", &g2, &spacing, 7).unwrap();
    assert_eq!(r.filepaths, "dir/foo_bar.md\ndir/barr.md");
    assert_eq!(r.file1_ngram_span.offset, 8);
    assert_eq!(r.file1_ngram_span.len, 3);
    assert_eq!(r.file2_ngram_span.offset, "dir/foo_bar.md\n".len() + 4);
    assert_eq!(r.id.0, "similar::name::Foo_Bar::barr");
}
