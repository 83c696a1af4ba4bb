use mdlinker::config::Config;
use mdlinker::document::{MdNode, NodeKind, SourceFile, YamlFrontMatter};
use mdlinker::rules::duplicate_alias;
use mdlinker::rules::{filter_code, DuplicateAlias, ErrorCode};
use mdlinker::{check, OutputReport};

fn node(kind: NodeKind, text: &str, line: usize, column: usize, parent: Option<usize>) -> MdNode {
    MdNode { kind, text: text.to_string(), line, column, parent }
}
fn page(path: &str, source: &str, alias: &str, body: Vec<MdNode>) -> SourceFile {
    let mut nodes = vec![node(NodeKind::Document, "", 1, 1, None)];
    nodes.extend(body);
    SourceFile {
        path: path.to_string(),
        source: source.to_string(),
        nodes,
        front_matter: YamlFrontMatter { alias: alias.to_string() },
    }
}
fn report_for(files: &[SourceFile]) -> OutputReport {
    let paths: Vec<String> = files.iter().map(|f| f.path.clone()).collect();
    let config = Config::with_files(paths).expect("constant patterns");
    check(&config, &files.to_vec()).expect("There should have been no error.")
}

fn pages() -> Vec<SourceFile> {
    vec![
        page("./pages/lorem.md", "", "", vec![]),
        page("./pages/foo.md", "---\nalias: lorem\n---\n", "lorem", vec![]),
        page("./pages/a.md", "---\nalias: dolor\n---\n", "dolor", vec![]),
        page("./pages/b.md", "---\nalias: Dolor\n---\n", "Dolor", vec![]),
        page("./pages/ipsum.md", "", "", vec![]),
        page("./journals/x.md", "---\nalias: ipsum\n---\n", "ipsum", vec![]),
    ]
}

fn get_report() -> OutputReport {
    report_for(&pages())
}

fn code(rest: &str) -> ErrorCode {
    ErrorCode(format!("{}::{}", duplicate_alias::CODE, rest))
}

#[test]
fn number_of_duplicate_alias() {
    assert_eq!(get_report().duplicate_aliases().len(), 3);
}

#[test]
fn filename_alias_relation() {
    let found = filter_code(get_report().duplicate_aliases(), &code("lorem"));
    assert_eq!(found.len(), 1);
    assert!(matches!(found[0], DuplicateAlias::FileNameContentDuplicate { .. }));
}

#[test]
fn filecontent_filecontent_relation() {
    let found = filter_code(get_report().duplicate_aliases(), &code("dolor"));
    assert_eq!(found.len(), 1);
    match &found[0] {
        DuplicateAlias::FileContentContentDuplicate { src, other, other_filename, .. } => {
            assert_eq!(src.name, "./pages/b.md");
            assert_eq!(other_filename.as_str(), "a");
            assert_eq!(other.len(), 1);
            assert_eq!(other[0].src.name, "./pages/a.md");
        }
        other => panic!("unexpected {other:?}"),
    }
}

#[test]
fn duplicate_ipsum() {
    let found = filter_code(get_report().duplicate_aliases(), &code("ipsum"));
    assert_eq!(found.len(), 1);
}

#[test]
fn duplicate_ipsum_span() {
    let err_list = filter_code(get_report().duplicate_aliases(), &code("ipsum"));
    assert_eq!(err_list.len(), 1);
    let span = err_list[0].alias_span();
    assert_eq!(span.offset, 11);
    assert_eq!(span.len, 5);
}

#[test]
fn self_duplicate_is_an_error() {
    let files = vec![page("./pages/zed.md", "---\nalias: zed\n---\n", "zed", vec![])];
    let config = Config::with_files(vec!["./pages/zed.md".to_string()]).unwrap();
    assert!(matches!(
        check(&config, &files),
        Err(mdlinker::run::OutputErrors::FinalizeError(duplicate_alias::NewDuplicateAliasError::AliasAndFilenameSame { .. }))
    ));
}

#[test]
fn missing_alias_text_is_an_error() {
    let pair = mdlinker::sed::ReplacePair::new("___", "/").unwrap();
    let alias = mdlinker::wikilink::Alias::new("gone");
    let r = DuplicateAlias::new(&alias, "a.md", "nothing here", "b.md", "nor here", &pair);
    assert!(matches!(r, Err(duplicate_alias::NewDuplicateAliasError::MissingSubstringError(_))));
}
