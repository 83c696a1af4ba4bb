use mdlinker::config::Config;
use mdlinker::document::{MdNode, NodeKind, SourceFile, YamlFrontMatter};
use mdlinker::rules::{filter_code, unlinked_text, ErrorCode};
use mdlinker::rules::unlinked_text::{is_end_boundary, is_start_boundary, is_start_hashtag, is_whole_word_match};
use mdlinker::{check, OutputReport};

fn node(kind: NodeKind, text: &str, line: usize, column: usize, parent: Option<usize>) -> MdNode {
    MdNode { kind, text: text.to_string(), line, column, parent }
}

fn page(path: &str, source: &str, alias: &str, body: Vec<MdNode>) -> SourceFile {
    let mut nodes = vec![node(NodeKind::Document, "", 1, 1, None)];
    nodes.extend(body);
    SourceFile {
        path: path.to_string(),
        source: source.to_string(),
        nodes,
        front_matter: YamlFrontMatter { alias: alias.to_string() },
    }
}

fn report_for(files: &[SourceFile]) -> OutputReport {
    let paths: Vec<String> = files.iter().map(|f| f.path.clone()).collect();
    let config = Config::with_files(paths).expect("constant patterns");
    check(&config, &files.to_vec()).expect("There should have been no error.")
}

const FOO: &str = "word word word word word word word word word word word word w dolors and zzzzzzzzzzz lorem here.";
const JOURNAL_1101: &str = "[[lorem]] is linked but ipsum is not";
const JOURNAL_0810: &str = "line one\nthe word icazyvey stands here";

fn pages() -> Vec<SourceFile> {
    vec![
        page("./pages/foo.md", FOO, "", vec![node(NodeKind::Text, FOO, 1, 1, Some(0))]),
        page("./pages/lorem.md", "---\nalias: ipsum\n---\n", "ipsum", vec![]),
        page("./pages/dolors.md", "", "", vec![]),
        page("./pages/icazyvey.md", "", "", vec![]),
        page(
            "./journals/2024_11_01.md",
            JOURNAL_1101,
            "",
            vec![
                node(NodeKind::WikiLink, "lorem", 1, 1, Some(0)),
                node(NodeKind::Text, "lorem", 1, 3, Some(1)),
                node(NodeKind::Text, " is linked but ipsum is not", 1, 10, Some(0)),
            ],
        ),
        page(
            "./journals/2024_08_10.md",
            JOURNAL_0810,
            "",
            vec![
                node(NodeKind::Text, "line one", 1, 1, Some(0)),
                node(NodeKind::Text, "the word icazyvey stands here", 2, 1, Some(0)),
            ],
        ),
    ]
}

fn code(rest: &str) -> ErrorCode {
    ErrorCode(format!("{}::{}", unlinked_text::CODE, rest))
}

#[test]
fn number_of_unlinked_texts() {
    let report = get_report();
    assert_eq!(report.unlinked_texts().len(), 4);
}

fn get_report() -> OutputReport {
    report_for(&pages())
}

#[test]
fn lorem_exist_and_is_wikilink() {
    let report = get_report();
    assert!(filter_code(report.unlinked_texts(), &code("2024_11_01::lorem")).is_empty());
}

#[test]
fn ipsum_is_alias_and_is_not_wikilink_in_journal() {
    let report = get_report();
    assert!(!filter_code(report.unlinked_texts(), &code("2024_11_01::ipsum")).is_empty());
}

#[test]
fn dolors_exists_and_is_not_wikilink_in_foo() {
    let report = get_report();
    assert!(!filter_code(report.unlinked_texts(), &code("foo::dolors")).is_empty());
}

#[test]
fn dolors_exists_and_is_not_wikilink_in_foo_span() {
    let report = get_report();
    let err_list = filter_code(report.unlinked_texts(), &code("foo::dolors"));
    assert_eq!(err_list.len(), 1);
    assert_eq!(err_list[0].span.offset, 62);
    assert_eq!(err_list[0].span.len, 6);
}

#[test]
fn icazyvey_exists_and_is_not_wikilink_in_journal() {
    let report = get_report();
    let err_list = filter_code(report.unlinked_texts(), &code("2024_08_10::icazyvey"));
    assert_eq!(err_list.len(), 1);
    assert_eq!(err_list[0].span.offset, "line one\nthe word ".len());
    assert_eq!(err_list[0].span.len, 8);
}

#[test]
fn lorem_exists_and_is_not_wikilink_in_journal() {
    let report = get_report();
    let err_list = filter_code(report.unlinked_texts(), &code("foo::lorem"));
    assert_eq!(err_list.len(), 1);
    assert_eq!(err_list[0].span.offset, 85);
    assert_eq!(err_list[0].span.len, 5);
}

#[test]
fn mention_boundaries() {
    let text = "category cat #cat [[cat]] cat.";
    let files = vec![
        page("cat.md", "", "", vec![]),
        page(
            "notes.md",
            text,
            "",
            vec![
                node(NodeKind::Text, "category cat #cat ", 1, 1, Some(0)),
                node(NodeKind::WikiLink, "cat", 1, 19, Some(0)),
                node(NodeKind::Text, "cat", 1, 21, Some(2)),
                node(NodeKind::Text, " cat.", 1, 26, Some(0)),
            ],
        ),
    ];
    let found = report_for(&files).unlinked_texts();
    assert_eq!(found.len(), 1, "{found:?}");
    assert_eq!(found[0].span.offset, 9);
    assert_eq!(found[0].span.len, 3);
    assert_eq!(found[0].id.0, "content::alias::unlinked::notes::cat");
}

#[test]
fn fix_wraps_the_mention() {
    let report = get_report();
    let err_list = filter_code(report.unlinked_texts(), &code("foo::dolors"));
    match err_list[0].fix() {
        mdlinker::run::FixAction::WriteFile { path, contents } => {
            assert_eq!(path, "./pages/foo.md");
            assert!(contents.contains(" w [[dolors]] and zz"));
            assert_eq!(contents.len(), FOO.len() + 4);
        }
        other => panic!("unexpected {other:?}"),
    }
}

#[test]
fn boundary_helpers() {
    assert!(is_start_boundary("a cat", 2));
    assert!(!is_start_boundary("acat", 1));
    assert!(is_start_hashtag("#cat", 1));
    assert!(is_end_boundary("cat", 3));
    assert!(!is_end_boundary("category", 3));
    assert!(is_whole_word_match("a cat b", 2, 5));
    assert!(!is_whole_word_match("a #cat b", 3, 6));
}
