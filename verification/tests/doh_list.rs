use doh_tester::doh_list::parse_doh_list;

#[test]
fn doh_list_skips_blank_and_comment_lines() {
    let content = "# resolvers\nhttps://a/dns-query\n\n   \n  https://b/q  \r\n#https://c\n\thttps://d\n";
    assert_eq!(
        parse_doh_list(content),
        vec!["https://a/dns-query".to_string(), "https://b/q".to_string(), "https://d".to_string()]
    );
}

#[test]
fn doh_list_edge_cases() {
    assert!(parse_doh_list("").is_empty());
    assert!(parse_doh_list("\n\n").is_empty());
    assert_eq!(parse_doh_list("x"), vec!["x".to_string()]);
    assert_eq!(parse_doh_list(" \u{a0}y\u{3000}"), vec!["y".to_string()]);
    assert_eq!(parse_doh_list("  # not a url"), Vec::<String>::new());
    assert_eq!(parse_doh_list("a # b"), vec!["a # b".to_string()]);
}

#[test]
fn doh_list_entries_are_clean() {
    let content = " a \n\n#b\n c d \n";
    for e in parse_doh_list(content) {
        assert!(!e.is_empty());
        assert!(!e.starts_with('#'));
        assert_eq!(e.trim(), e);
        assert!(!e.contains('\n'));
    }
}
