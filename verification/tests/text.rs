use chordsense::text::{
    before_char, find_char, is_space_char, join_from, replace_str, split_lines, split_once_char,
    split_words, str_eq, str_starts_with, trim_str,
};

#[test]
fn whitespace_is_unicode_white_space() {
    for c in ['\t', '\n', '\u{b}', '\u{c}', '\r', ' ', '\u{85}', '\u{a0}', '\u{2000}', '\u{3000}'] {
        assert!(is_space_char(c));
        assert!(c.is_whitespace());
    }
    for c in ['a', '0', '\u{200b}', '\u{180e}', '_'] {
        assert!(!is_space_char(c));
        assert_eq!(is_space_char(c), c.is_whitespace());
    }
}

#[test]
fn search_and_split() {
    assert_eq!(find_char("A:min/3", ':'), Some(1));
    assert_eq!(find_char("A:min/3", '/'), Some(5));
    assert_eq!(find_char("A", ':'), None);
    assert_eq!(before_char("A:min:7", ':'), "A");
    assert_eq!(before_char("A", ':'), "A");
    assert_eq!(split_once_char("a/b/c", '/'), Some(("a", "b/c")));
    assert_eq!(split_once_char("abc", '/'), None);
    assert_eq!(split_once_char("é/ü", '/'), Some(("é", "ü")));
}

#[test]
fn replace_and_prefix() {
    assert_eq!(replace_str("A:min:min", ":min", "m"), "Amm");
    assert_eq!(replace_str("aaa", "aa", "b"), "ba");
    assert_eq!(replace_str("", "x", "y"), "");
    assert_eq!(replace_str("C:maj7", ":maj", ""), "C7");
    assert!(str_starts_with("minor", "min"));
    assert!(!str_starts_with("mi", "min"));
    assert!(str_eq("C#", "C#"));
    assert!(!str_eq("C#", "C"));
}

#[test]
fn trim_words_join_and_lines() {
    assert_eq!(trim_str("  a b \t\r"), "a b");
    assert_eq!(trim_str(" \u{3000} "), "");
    assert_eq!(split_words("  0.5\t1.0   A:min  7 "), vec!["0.5", "1.0", "A:min", "7"]);
    assert!(split_words("   ").is_empty());
    let parts: Vec<String> = vec!["x".into(), "y".into(), "a".into(), "b".into()];
    assert_eq!(join_from(&parts, 2, " "), "a b");
    assert_eq!(join_from(&parts, 4, " "), "");
    assert_eq!(split_lines("a\nb\r\n\nc"), vec!["a", "b", "", "c"]);
    assert_eq!(split_lines("a\n"), vec!["a"]);
    assert!(split_lines("").is_empty());
    for s in ["x\r", "\r\n\r\n", "one\ntwo\r\nthree\n", "\n\n"] {
        let ours = split_lines(s);
        let std_lines: Vec<&str> = s.lines().collect();
        assert_eq!(ours, std_lines, "lines of {:?}", s);
    }
}
