use mdlinker::config::Config;
use mdlinker::document::{MdNode, NodeKind, SourceFile, YamlFrontMatter};
use mdlinker::rules::{broken_wikilink, filter_code, ErrorCode};
use mdlinker::{check, OutputReport};

fn node(kind: NodeKind, text: &str, line: usize, column: usize, parent: Option<usize>) -> MdNode {
    MdNode { kind, text: text.to_string(), line, column, parent }
}

fn page(path: &str, source: &str, alias: &str, body: Vec<MdNode>) -> SourceFile {
    let mut nodes = vec![node(NodeKind::Document, "", 1, 1, None)];
    nodes.extend(body);
    SourceFile {
        path: path.to_string(),
        source: source.to_string(),
        nodes,
        front_matter: YamlFrontMatter { alias: alias.to_string() },
    }
}

fn report_for(files: &[SourceFile]) -> OutputReport {
    let paths: Vec<String> = files.iter().map(|f| f.path.clone()).collect();
    let config = Config::with_files(paths).expect("constant patterns");
    check(&config, &files.to_vec()).expect("There should have been no error.")
}

const FOO: &str = "word word word word word word word word word word word word w#dolor is a tag here.";
const JOURNAL: &str = "[[lorem]] [[ipsum]] dolor #sit [[amet]] #consectetur\n#adipiscing #elit";

fn pages() -> Vec<SourceFile> {
    vec![
        page("./pages/foo.md", FOO, "", vec![node(NodeKind::Text, FOO, 1, 1, Some(0))]),
        page("./pages/lorem.md", "", "", vec![]),
        page("./pages/sit.md", "", "", vec![]),
        page("./pages/elit.md", "", "", vec![]),
        page(
            "./journals/2024_11_01.md",
            JOURNAL,
            "",
            vec![
                node(NodeKind::WikiLink, "lorem", 1, 1, Some(0)),
                node(NodeKind::WikiLink, "ipsum", 1, 11, Some(0)),
                node(NodeKind::Text, " dolor #sit ", 1, 20, Some(0)),
                node(NodeKind::WikiLink, "amet", 1, 32, Some(0)),
                node(NodeKind::Text, " #consectetur", 1, 40, Some(0)),
                node(NodeKind::Text, "#adipiscing #elit", 2, 1, Some(0)),
            ],
        ),
    ]
}

fn get_report() -> OutputReport {
    report_for(&pages())
}

fn code(rest: &str) -> ErrorCode {
    ErrorCode(format!("{}::{}", broken_wikilink::CODE, rest))
}

#[test]
fn number_of_broken_wikilinks() {
    assert_eq!(get_report().broken_wikilinks().len(), 5);
}

#[test]
fn tests_lorem_exist_and_is_wikilink() {
    assert!(filter_code(get_report().broken_wikilinks(), &code("2024_11_01::lorem")).is_empty());
}

#[test]
fn ipsum_does_not_exist_and_is_wikilink() {
    assert!(!filter_code(get_report().broken_wikilinks(), &code("2024_11_01::ipsum")).is_empty());
}

#[test]
fn dolor_does_not_exist_and_is_not_wikilink_in_journal() {
    assert!(filter_code(get_report().broken_wikilinks(), &code("2024_11_01::dolor")).is_empty());
}

#[test]
fn sit_exists_and_is_tag() {
    assert!(filter_code(get_report().broken_wikilinks(), &code("2024_11_01::sit")).is_empty());
}

#[test]
fn amet_does_not_exist_and_is_fancy_tag() {
    assert!(!filter_code(get_report().broken_wikilinks(), &code("2024_11_01::amet")).is_empty());
}

#[test]
fn consectetur_does_not_exist_and_is_tag() {
    assert!(!filter_code(get_report().broken_wikilinks(), &code("2024_11_01::consectetur")).is_empty());
}

#[test]
fn adipiscing_does_not_exist_and_is_tag() {
    assert!(!filter_code(get_report().broken_wikilinks(), &code("2024_11_01::adipiscing")).is_empty());
}

#[test]
fn elit_exists_and_is_tag() {
    assert!(filter_code(get_report().broken_wikilinks(), &code("2024_11_01::elit")).is_empty());
}

#[test]
fn dolor_does_not_exist_and_is_wikilink_in_foo() {
    assert!(!filter_code(get_report().broken_wikilinks(), &code("foo::dolor")).is_empty());
}

#[test]
fn dolor_does_not_exist_and_is_wikilink_in_foo_span() {
    let err_list = filter_code(get_report().broken_wikilinks(), &code("foo::dolor"));
    assert_eq!(err_list.len(), 1);
    assert_eq!(err_list[0].wikilink.offset, 62);
    assert_eq!(err_list[0].wikilink.len, 5);
}

#[test]
fn wikilink_span_covers_brackets() {
    let err_list = filter_code(get_report().broken_wikilinks(), &code("2024_11_01::ipsum"));
    assert_eq!(err_list[0].wikilink.offset, 10);
    assert_eq!(err_list[0].wikilink.len, 9);
}

#[test]
fn relative_paths_are_not_reported() {
    let files = vec![page(
        "a.md",
        "[[../b]]",
        "",
        vec![node(NodeKind::WikiLink, "../b", 1, 1, Some(0)), node(NodeKind::WikiLink, "./c", 1, 1, Some(0))],
    )];
    assert!(report_for(&files).broken_wikilinks().is_empty());
}

#[test]
fn path_shaped_links_resolve() {
    let files = vec![
        page("vault/notes/baz.md", "", "", vec![]),
        page(
            "vault/index.md",
            "",
            "",
            vec![
                node(NodeKind::WikiLink, "notes/baz", 1, 1, Some(0)),
                node(NodeKind::WikiLink, "notes/baz.md", 1, 1, Some(0)),
                node(NodeKind::WikiLink, "vault/notes/baz", 1, 1, Some(0)),
                node(NodeKind::WikiLink, "baz.md", 1, 1, Some(0)),
            ],
        ),
    ];
    assert!(report_for(&files).broken_wikilinks().is_empty());
}
