use mdlinker::config::Config;
use mdlinker::document::{MdNode, NodeKind, SourceFile, YamlFrontMatter};
use mdlinker::rules::ErrorCode;
use mdlinker::run::{after_fixes, fix_actions, fix_gate, FixAction, FixError, FixStep};
use mdlinker::check;
use mdlinker::rules::DuplicateAlias;
use mdlinker::error::{HasId, VecHasIdExtensions};

fn node(kind: NodeKind, text: &str, line: usize, column: usize, parent: Option<usize>) -> MdNode {
    MdNode { kind, text: text.to_string(), line, column, parent }
}
fn page(path: &str, source: &str, alias: &str, body: Vec<MdNode>) -> SourceFile {
    let mut nodes = vec![node(NodeKind::Document, "", 1, 1, None)];
    nodes.extend(body);
    SourceFile {
        path: path.to_string(),
        source: source.to_string(),
        nodes,
        front_matter: YamlFrontMatter { alias: alias.to_string() },
    }
}

fn corpus() -> Vec<SourceFile> {
    vec![
        page("pages/lorem.md", "---\nalias: sit\n---\n", "sit", vec![]),
        page("pages/dolor.md", "", "", vec![]),
        page(
            "journals/day.md",
            "[[Ipsum]] lorem and #amet",
            "",
            vec![
                node(NodeKind::WikiLink, "Ipsum", 1, 1, Some(0)),
                node(NodeKind::Text, "Ipsum", 1, 3, Some(1)),
                node(NodeKind::Text, " lorem and #amet", 1, 10, Some(0)),
            ],
        ),
    ]
}

fn ids(files: &Vec<SourceFile>, config: &Config) -> Vec<String> {
    let mut v: Vec<String> = check(config, files).unwrap().reports.iter().map(|r| r.id().0.clone()).collect();
    v.sort();
    v
}

fn config_for(files: &Vec<SourceFile>) -> Config {
    Config::with_files(files.iter().map(|f| f.path.clone()).collect()).unwrap()
}

#[test]
fn two_checks_agree() {
    let files = corpus();
    let config = config_for(&files);
    assert_eq!(ids(&files, &config), ids(&files, &config));
}

#[test]
fn discovery_order_does_not_matter() {
    let files = corpus();
    let mut reversed = files.clone();
    reversed.reverse();
    assert_eq!(ids(&files, &config_for(&files)), ids(&reversed, &config_for(&reversed)));
}

#[test]
fn excluded_reports_never_appear() {
    let files = corpus();
    let mut config = config_for(&files);
    assert!(!ids(&files, &config).is_empty());
    config.exclude = vec![ErrorCode("CONTENT::*".to_string())];
    assert!(ids(&files, &config).iter().all(|id| !id.starts_with("content::")));
    config.exclude = vec![ErrorCode("*".to_string())];
    assert!(ids(&files, &config).is_empty());
}

#[test]
fn broken_wikilink_scenario() {
    let files = vec![page(
        "journals/day.md",
        "[[Ipsum]]",
        "",
        vec![node(NodeKind::WikiLink, "Ipsum", 1, 1, Some(0)), node(NodeKind::Text, "Ipsum", 1, 3, Some(1))],
    )];
    let mut config = config_for(&files);
    config.new_files_directory = "pages".to_string();
    let report = check(&config, &files).unwrap();
    let broken = report.broken_wikilinks();
    assert_eq!(broken.len(), 1);
    assert!(broken[0].id.0.contains("ipsum"));
    assert_eq!(broken[0].id.0, "content::wikilink::broken::day::ipsum");
    let actions = fix_actions(&report, &config);
    assert_eq!(actions, vec![FixAction::CreateFile { path: "pages/ipsum.md".to_string() }]);
    let mut fixed = files.clone();
    fixed.push(page("pages/ipsum.md", "", "", vec![]));
    let config = config_for(&fixed);
    assert!(check(&config, &fixed).unwrap().broken_wikilinks().is_empty());
}

#[test]
fn fixes_converge_after_one_more_check() {
    let files = corpus();
    let config = config_for(&files);
    let report = check(&config, &files).unwrap();
    let mut fixed = files.clone();
    for action in fix_actions(&report, &config) {
        if let FixAction::CreateFile { path } = action {
            fixed.push(page(&path, "", "", vec![]));
        }
    }
    let again = check(&config_for(&fixed), &fixed).unwrap();
    assert!(again.broken_wikilinks().is_empty());
}

#[test]
fn fix_loop_decisions() {
    assert_eq!(fix_gate(true, false), Err(FixError::DirtyRepo));
    assert_eq!(fix_gate(true, true), Ok(()));
    assert_eq!(fix_gate(false, false), Ok(()));
    assert_eq!(after_fixes(0, false), Ok(FixStep::Done));
    assert_eq!(after_fixes(0, true), Ok(FixStep::CheckAgain));
    assert_eq!(after_fixes(mdlinker::run::MAX_FIX_ROUNDS - 1, true), Err(FixError::TooManyRounds));
}

#[test]
fn multibyte_page_is_refused() {
    let files = vec![page("a.md", "caf\u{e9}", "", vec![])];
    assert!(matches!(
        check(&config_for(&files), &files),
        Err(mdlinker::run::OutputErrors::ParseError(mdlinker::run::ParseError::MultibyteError { .. }))
    ));
}

#[test]
fn invalid_pattern_is_refused() {
    let files = corpus();
    let mut config = config_for(&files);
    config.boundary_pattern = "(".to_string();
    assert!(matches!(check(&config, &files), Err(mdlinker::run::OutputErrors::RegexError { .. })));
}

#[test]
fn rewrite_rules_apply() {
    let pair = mdlinker::sed::ReplacePair::new("___", "/").unwrap();
    assert_eq!(pair.apply("Foo___Bar"), "Foo/Bar");
    let f = mdlinker::name::get_filename("dir/Foo___Bar.md");
    assert_eq!(f.as_str(), "Foo___Bar");
    assert_eq!(mdlinker::wikilink::Alias::from_filename(&f, &pair).as_str(), "foo/bar");
    assert!(matches!(
        mdlinker::sed::ReplacePair::new("(", "x"),
        Err(mdlinker::sed::ReplacePairCompilationError::FromError(_))
    ));
    assert!(matches!(
        mdlinker::sed::ReplacePair::new("x", "("),
        Err(mdlinker::sed::ReplacePairCompilationError::ToError(_))
    ));
}

#[test]
fn defaults() {
    assert_eq!(mdlinker::config::directories(), vec![".".to_string()]);
    assert_eq!(mdlinker::config::ngram_size(), 2);
    assert_eq!(mdlinker::config::boundary_pattern(), "[,./_]");
    assert_eq!(mdlinker::config::filename_spacing_pattern(), "___|__|-|_|\\s");
    assert_eq!(mdlinker::config::filename_match_threshold(), 0);
    assert!(mdlinker::config::exclude().is_empty());
}

#[test]
fn alias_basics() {
    let a = mdlinker::wikilink::Alias::new("HeLLo World");
    assert_eq!(a.as_str(), "hello world");
    assert_eq!(a.char_len(), 11);
    assert!(!a.is_empty());
    let f = mdlinker::name::Filename::new("Foo___Bar");
    assert_eq!(f.lowercase().as_str(), "foo___bar");
    assert_eq!(mdlinker::name::FilenameLowercase::new("ABC").as_str(), "abc");
}

#[test]
fn output_report_getters() {
    let files = corpus();
    let report = check(&config_for(&files), &files).unwrap();
    assert!(!report.is_empty());
    let total = report.broken_wikilinks().len() + report.unlinked_texts().len()
        + report.duplicate_aliases().len() + report.similar_filenames().len();
    assert_eq!(total, report.reports.len());
}

#[test]
fn legacy_prefix_excludes() {
    let files = corpus();
    let report = check(&config_for(&files), &files).unwrap();
    let n = report.reports.len();
    let kept = report.reports.clone().filter_by_excludes(vec!["CONTENT::WIKILINK".to_string()]);
    assert!(kept.iter().all(|r| !HasId::id(r).starts_with("content::wikilink")));
    assert!(kept.len() < n);
}

#[test]
fn default_title_rewrites() {
    let rules = mdlinker::config::title_to_filepath().unwrap();
    assert_eq!(rules.len(), 1);
    assert_eq!(rules[0].len(), 3);
    let step1 = rules[0][0].apply("[[Foo/Bar]]");
    assert_eq!(step1, "Foo/Bar.md");
    assert_eq!(rules[0][1].apply(&step1), "Foo___Bar.md");
    let back = mdlinker::config::filepath_to_title().unwrap();
    assert_eq!(back[0][1].apply("Foo___Bar"), "Foo/Bar");
    assert_eq!(back[0][0].patterns().0, "([A-Za-z0-1_-]+).md");
}

#[test]
fn patterns_are_checked_before_pages() {
    let files = vec![page("a.md", "caf\u{e9}", "", vec![])];
    let mut config = config_for(&files);
    config.filename_spacing_pattern = "(".to_string();
    assert!(matches!(check(&config, &files), Err(mdlinker::run::OutputErrors::RegexError { .. })));
}

#[test]
fn duplicate_report_fields() {
    let pair = mdlinker::sed::ReplacePair::new("___", "/").unwrap();
    let alias = mdlinker::wikilink::Alias::new("ipsum");
    let r = DuplicateAlias::new(&alias, "j/x.md", "---\nalias: Ipsum\n---\n", "p/ipsum.md", "", &pair).unwrap();
    match r {
        DuplicateAlias::FileNameContentDuplicate { id, other_filename, src, alias, advice } => {
            assert_eq!(id.0, "name::alias::duplicate::ipsum");
            assert_eq!(other_filename.as_str(), "ipsum");
            assert_eq!(src.name, "j/x.md");
            assert_eq!(alias.offset, 11);
            assert_eq!(alias.len, 5);
            assert_eq!(advice, "Delete the alias from j/x.md");
        }
        other => panic!("unexpected {other:?}"),
    }
    let same = DuplicateAlias::new(&alias, "a.md", "", "a.md", "", &pair);
    match same {
        Err(mdlinker::rules::duplicate_alias::NewDuplicateAliasError::AliasAndFilenameSame { filename, alias }) => {
            assert_eq!(filename.as_str(), "a");
            assert_eq!(alias.as_str(), "ipsum");
        }
        other => panic!("unexpected {other:?}"),
    }
}

#[test]
fn fix_actions_follow_reports() {
    let files = corpus();
    let config = config_for(&files);
    let report = check(&config, &files).unwrap();
    let actions = fix_actions(&report, &config);
    let mut expected = 0;
    for r in &report.reports {
        if let mdlinker::rules::Report::ThirdPass(_) = r {
            expected += 1;
        }
    }
    assert_eq!(actions.len(), expected);
    assert!(actions.iter().any(|a| matches!(a, FixAction::CreateFile { path } if path == "./ipsum.md")));
}
