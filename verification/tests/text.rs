use selma::text::{chars_of, has_pattern, has_prefix, join_with, trim_leading, words};

#[test]
fn chars_of_keeps_order() {
    assert_eq!(chars_of("héllo"), vec!['h', 'é', 'l', 'l', 'o']);
}

#[test]
fn trim_leading_drops_unicode_whitespace() {
    assert_eq!(trim_leading(" \t\u{3000}\u{a0}x y "), "x y ");
    assert_eq!(trim_leading("   "), "");
    assert_eq!(trim_leading(""), "");
    assert_eq!(trim_leading(" \t\u{3000}\u{a0}x y "), " \t\u{3000}\u{a0}x y ".trim_start());
}

#[test]
fn words_are_the_runs_between_whitespace() {
    assert_eq!(words("  a  bc\td\n"), vec!["a".to_string(), "bc".to_string(), "d".to_string()]);
    assert_eq!(words(""), Vec::<String>::new());
    assert_eq!(words(" \n "), Vec::<String>::new());
    assert_eq!(words("é\u{2003}ü"), vec!["é".to_string(), "ü".to_string()]);
}

#[test]
fn join_with_puts_the_separator_between() {
    assert_eq!(join_with(&vec!["a".to_string(), "b".to_string(), "c".to_string()], " "), "a b c");
    assert_eq!(join_with(&vec!["a".to_string()], " "), "a");
    assert_eq!(join_with(&vec![], " "), "");
}

#[test]
fn patterns_and_prefixes() {
    assert!(has_pattern("http://x", "://"));
    assert!(has_pattern("://", "://"));
    assert!(!has_pattern(":/", "://"));
    assert!(!has_pattern("a:/b/", "://"));
    assert!(has_pattern("abc", ""));
    assert!(has_prefix("<!--x", "<!--"));
    assert!(!has_prefix("<!-", "<!--"));
    assert!(!has_prefix("x<!--", "<!--"));
}
