use jackmute::text::{chars_of, contains_char, contains_chars, same_chars, strip_chars};

fn chars(s: &str) -> Vec<char> {
    s.chars().collect()
}

#[test]
fn strip_removes_every_occurrence_from_the_left() {
    assert_eq!(strip_chars(&chars("connection12"), &chars("connection")), chars("12"));
    assert_eq!(strip_chars(&chars("aaa"), &chars("aa")), chars("a"));
    assert_eq!(strip_chars(&chars("xshortcutyshortcut"), &chars("shortcut")), chars("xy"));
    assert_eq!(strip_chars(&chars("abc"), &chars("")), chars("abc"));
    for (text, pattern) in [("connection12", "connection"), ("aaa", "aa"), ("abab", "ab"), ("aXbXc", "X")] {
        let expected: Vec<char> = text.replace(pattern, "").chars().collect();
        assert_eq!(strip_chars(&chars(text), &chars(pattern)), expected);
    }
}

#[test]
fn contains_finds_a_pattern() {
    assert!(contains_chars(&chars("muteable_connection1"), &chars("connection")));
    assert!(!contains_chars(&chars("ports1"), &chars("connection")));
    assert!(contains_chars(&chars("abc"), &chars("")));
    assert!(!contains_chars(&chars(""), &chars("a")));
    assert!(contains_char("m\n", 'm'));
    assert!(!contains_char("m\n", 'e'));
}

#[test]
fn chars_and_equality() {
    assert_eq!(chars_of("héllo"), chars("héllo"));
    assert!(same_chars(&chars("ab"), &chars("ab")));
    assert!(!same_chars(&chars("ab"), &chars("abc")));
    assert!(!same_chars(&chars("ab"), &chars("ac")));
}
