use taskmaster::text::{decimal_text, is_whitespace, split_whitespace, starts_with, trim, trim_nul};

#[test]
fn split_whitespace_skips_runs_of_blanks() {
    let words = split_whitespace("  start \t nginx\n  web ");
    assert_eq!(words, vec!["start".to_string(), "nginx".to_string(), "web".to_string()]);
}

#[test]
fn split_whitespace_of_blank_line_is_empty() {
    assert!(split_whitespace("").is_empty());
    assert!(split_whitespace(" \t\u{3000}\n").is_empty());
}

#[test]
fn split_whitespace_matches_std() {
    for line in ["a b", " a\u{a0}b ", "x\u{2003}y\u{85}z", "one", "\u{200b}a b"] {
        let ours = split_whitespace(line);
        let std: Vec<String> = line.split_whitespace().map(|s| s.to_string()).collect();
        assert_eq!(ours, std, "line {:?}", line);
    }
}

#[test]
fn whitespace_set_matches_std() {
    for c in ['\t', '\n', '\u{b}', '\u{c}', '\r', ' ', '\u{85}', '\u{a0}', '\u{1680}', '\u{2000}',
        '\u{200a}', '\u{2028}', '\u{2029}', '\u{202f}', '\u{205f}', '\u{3000}', 'a', '\u{200b}',
        '\u{180e}', '0', '\u{1f}'] {
        assert_eq!(is_whitespace(c), c.is_whitespace(), "char {:?}", c);
    }
}

#[test]
fn trim_removes_surrounding_whitespace() {
    assert_eq!(trim("  /usr/bin/nginx -c x \n"), "/usr/bin/nginx -c x");
    assert_eq!(trim("   "), "");
    assert_eq!(trim("a"), "a");
}

#[test]
fn trim_nul_removes_padding_only_at_the_ends() {
    assert_eq!(trim_nul("\0\0Quit\0\0\0"), "Quit");
    assert_eq!(trim_nul("a\0b\0"), "a\0b");
    assert_eq!(trim_nul("\0\0"), "");
}

#[test]
fn starts_with_is_a_prefix_test() {
    assert!(starts_with("nginx_1", "nginx"));
    assert!(starts_with("nginx", ""));
    assert!(!starts_with("ngi", "nginx"));
    assert!(!starts_with("apache_1", "nginx"));
}

#[test]
fn decimal_text_writes_numbers() {
    assert_eq!(decimal_text(0), "0");
    assert_eq!(decimal_text(7), "7");
    assert_eq!(decimal_text(10), "10");
    assert_eq!(decimal_text(4096), "4096");
    assert_eq!(decimal_text(u64::MAX), u64::MAX.to_string());
}

#[test]
fn split_words_are_nonempty_and_blank_free() {
    for w in split_whitespace(" \u{2028}a\u{a0}bc  d\te ") {
        assert!(!w.is_empty());
        assert!(!w.chars().any(|c| c.is_whitespace()));
    }
}
