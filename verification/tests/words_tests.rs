use batcave::words::{is_blank, rsplit_once, split_once, split_whitespace, strip_prefix, trim_exec};

fn s(x: &str) -> String {
    x.to_string()
}

#[test]
fn words_trim_unicode_space() {
    assert_eq!(trim_exec("  a b \t\n"), "a b");
    assert_eq!(trim_exec("\u{3000}x\u{a0}"), "x");
    assert_eq!(trim_exec("   "), "");
    assert!(is_blank(" \r\n"));
    assert!(!is_blank(" x "));
}

#[test]
fn words_split_whitespace() {
    assert_eq!(split_whitespace("  node   index.js\t--x "), vec![s("node"), s("index.js"), s("--x")]);
    assert!(split_whitespace(" \u{2003} ").is_empty());
}

#[test]
fn words_prefix_and_separators() {
    assert_eq!(strip_prefix("vol:30", "vol:"), Some(s("30")));
    assert_eq!(strip_prefix("vo", "vol:"), None);
    assert_eq!(split_once("a:b:c", ':'), Some((s("a"), s("b:c"))));
    assert_eq!(rsplit_once("a:b:c", ':'), Some((s("a:b"), s("c"))));
    assert_eq!(split_once("abc", ':'), None);
    assert_eq!(rsplit_once("", ':'), None);
}
