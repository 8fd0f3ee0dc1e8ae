//! The helpers for text.

use djade::text;
use djade::text::{
    blank, chars_of, count_leading_whitespace, count_newlines, cut, has_prefix, owned, str_eq,
    substring, trimmed, trimmed_at_end, trimmed_end, unindented, unindented_len,
};

fn chars(s: &str) -> Vec<char> {
    s.chars().collect()
}

#[test]
fn test_chars_of() {
    assert_eq!(chars_of("aé\u{10000}"), vec!['a', 'é', '\u{10000}']);
    assert_eq!(chars_of(""), Vec::<char>::new());
}

#[test]
fn test_cut_takes_bytes() {
    assert_eq!(cut("aébc", 1, 3), "é");
    assert_eq!(cut("aébc", 0, 0), "");
    assert_eq!(cut("aébc", 3, 5), "bc");
    assert_eq!(cut("aébc", 0, 5), "aébc");
}

#[test]
fn test_substring_takes_characters() {
    assert_eq!(substring("aébc", 1, 3), "éb");
    assert_eq!(substring("aébc", 4, 4), "");
    assert_eq!(substring("aébc", 0, 4), "aébc");
}

#[test]
fn test_str_eq() {
    assert!(str_eq("", ""));
    assert!(str_eq("aé", "aé"));
    assert!(!str_eq("aé", "ae"));
    assert!(!str_eq("a", "ab"));
    assert!(!str_eq("é", "e\u{301}"));
}

#[test]
fn test_has_prefix() {
    assert!(has_prefix(&chars("verbatim x"), &chars("verbatim")));
    assert!(has_prefix(&chars("x"), &chars("")));
    assert!(!has_prefix(&chars("verb"), &chars("verbatim")));
    assert!(!has_prefix(&chars("xverbatim"), &chars("verbatim")));
}

#[test]
fn test_count_newlines() {
    assert_eq!(count_newlines(&chars("")), 0);
    assert_eq!(count_newlines(&chars("a\r\nb\n\nc\r")), 3);
}

#[test]
fn test_blank() {
    assert!(blank(&chars("")));
    assert!(blank(&chars(" \t\r\n\u{a0}\u{2003}")));
    assert!(!blank(&chars(" \u{200b} ")));
    assert!(!blank(&chars(" a ")));
}

#[test]
fn test_trimming() {
    assert_eq!(trimmed("  \n a b \t\u{3000}"), "a b");
    assert_eq!(trimmed(" \n "), "");
    assert_eq!(trimmed(""), "");
    assert_eq!(trimmed("a"), "a");
    assert_eq!(trimmed_at_end("  a b \n "), "  a b");
    assert_eq!(trimmed_at_end("   "), "");
    for text in ["", " ", " a ", "\u{a0}é\u{2028}", "a\u{200b} ", "\n\na\n\n"] {
        assert_eq!(trimmed(text), text.trim());
        assert_eq!(trimmed_at_end(text), text.trim_end());
    }
}

#[test]
fn test_trimming_by_index() {
    let text = chars("  a  ");
    assert_eq!(count_leading_whitespace(&text), 2);
    assert_eq!(trimmed_end(&text, 2), 3);
    assert_eq!(trimmed_end(&text, 0), 3);
    let spaces = chars("   ");
    assert_eq!(count_leading_whitespace(&spaces), 3);
    assert_eq!(trimmed_end(&spaces, 3), 3);
    assert_eq!(trimmed_end(&spaces, 1), 1);
}

#[test]
fn test_unindented_drops_spaces_and_tabs_only() {
    assert_eq!(unindented("a \n \t "), "a \n");
    assert_eq!(unindented("a\u{a0}"), "a\u{a0}");
    assert_eq!(unindented(" \t"), "");
    assert_eq!(unindented(""), "");
    assert_eq!(unindented_len(&chars("ab  ")), 2);
    for text in ["", " ", "a \t", "a\n ", "\t\n"] {
        assert_eq!(unindented(text), text.trim_end_matches(&[' ', '\t']));
    }
}

#[test]
fn test_concat_and_owned() {
    assert_eq!(text::concat("end", "verbatim"), "endverbatim");
    assert_eq!(text::concat("", ""), "");
    assert_eq!(owned("é"), "é");
}
