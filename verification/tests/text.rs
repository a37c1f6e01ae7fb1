use toolbx_zed::text::{
    split_whitespace, str_contains, str_eq, str_find, str_starts_with, strip_prefixes_str,
    trim_char_str, trim_whitespace_str, replace_char_str,
};

#[test]
fn words_are_split_at_unicode_white_space() {
    assert_eq!(
        split_whitespace(" a\u{3000}b\t\nc\u{a0}d  "),
        vec!["a".to_string(), "b".to_string(), "c".to_string(), "d".to_string()]
    );
    assert!(split_whitespace("  ").is_empty());
}

#[test]
fn command_output_is_trimmed() {
    assert_eq!(trim_whitespace_str("1000\n"), "1000");
    assert_eq!(trim_whitespace_str("  \t "), "");
}

#[test]
fn search_and_prefix_helpers() {
    assert_eq!(str_find("abcabc", "ca"), Some(2));
    assert_eq!(str_find("abc", "x"), None);
    assert_eq!(str_find("abc", ""), Some(0));
    assert!(str_contains("https://x", "://"));
    assert!(str_starts_with("file:///a", "file://"));
    assert!(!str_starts_with("fi", "file://"));
    assert!(str_eq("é", "é"));
    assert!(!str_eq("a", "ab"));
}

#[test]
fn trimming_and_replacing() {
    assert_eq!(trim_char_str("\"\"a\"b\"", '"'), "a\"b");
    assert_eq!(strip_prefixes_str("///x/", "/"), "x/");
    assert_eq!(replace_char_str("~/~", '~', "/h"), "/h//h");
}
