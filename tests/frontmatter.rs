use mdlinker::document::{front_matter_body, logseq_aliases, parse_csv, FrontMatterVisitor, YamlFrontMatter};

#[test]
fn logseq_test_parse_csv() {
    let contents = "a,b,c";
    let out = parse_csv(contents);
    assert_eq!(out, vec!["a", "b", "c"]);
}

#[test]
fn parse_csv_trims_and_keeps_empty_pieces() {
    assert_eq!(parse_csv(" name1, name2 ,name3 "), vec!["name1", "name2", "name3"]);
    assert_eq!(parse_csv("a,,b"), vec!["a", "", "b"]);
}

#[test]
fn front_matter_body_drops_delimiters() {
    assert_eq!(front_matter_body("---\nalias: a, b\n---\n"), "alias: a, b");
    assert_eq!(front_matter_body("---\nx: 1\ny: 2\n---"), "x: 1\ny: 2");
    assert_eq!(front_matter_body("---"), "");
}

#[test]
fn front_matter_aliases_are_lowercased() {
    let mut v = FrontMatterVisitor::new();
    v.visit_front_matter(&YamlFrontMatter { alias: "Name1, NAME2,name3".to_string() });
    let got: Vec<String> = v.aliases.iter().map(|a| a.as_str().to_string()).collect();
    assert_eq!(got, vec!["name1", "name2", "name3"]);
    v.finalize_file();
    assert!(v.aliases.is_empty());
    v.visit_front_matter(&YamlFrontMatter { alias: String::new() });
    assert!(v.aliases.is_empty());
}

#[test]
fn logseq_test_new() {
    let text = "\nalias:: name1,name2,name3\n";
    assert_eq!(logseq_aliases(text), vec!["name1".to_string(), "name2".to_string(), "name3".to_string()]);
}

#[test]
fn test_new_with_spaces() {
    let text = "alias:: name1, name2, name3";
    assert_eq!(logseq_aliases(text), vec!["name1".to_string(), "name2".to_string(), "name3".to_string()]);
}

#[test]
fn logseq_without_property() {
    assert!(logseq_aliases("title:: x\n").is_empty());
}
