use open_in_browser::text::{chars_of, contains_str, join_strings, replace_str};

#[test]
fn chars_of_keeps_order() {
    assert_eq!(chars_of("aé☃"), vec!['a', 'é', '☃']);
    assert_eq!(chars_of(""), Vec::<char>::new());
}

#[test]
fn contains_finds_substrings() {
    assert!(contains_str("powershell -c", "shell"));
    assert!(contains_str("abc", ""));
    assert!(contains_str("abc", "abc"));
    assert!(!contains_str("abc", "abcd"));
    assert!(!contains_str("abc", "ac"));
    assert!(contains_str("xxbash", "bash"));
}

#[test]
fn replace_is_left_to_right_and_non_overlapping() {
    assert_eq!(replace_str("aaa", "aa", "b"), "ba");
    assert_eq!(replace_str("a\\b\\c", "\\", "/"), "a/b/c");
    assert_eq!(replace_str("", "x", "y"), "");
    assert_eq!(replace_str("xyx", "x", ""), "y");
    assert_eq!(replace_str("héllo", "é", "e"), "hello");
}

#[test]
fn join_puts_separator_between_words() {
    let words = vec!["open".to_string(), "-a".to_string(), "Safari".to_string()];
    assert_eq!(join_strings(&words, " "), "open -a Safari");
    assert_eq!(join_strings(&[], " "), "");
    assert_eq!(join_strings(&["one".to_string()], ", "), "one");
}
