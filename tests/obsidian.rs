#[test]
fn test_path_wikilink_no_errors() {}
