use codebase_context::text::{
    chars_of, count_lines, decimal, ends_with_char, is_blank, is_whitespace, push_decimal,
    push_joined, same_text, split_lines,
};

fn text_lines(s: &str) -> Vec<String> {
    s.lines().map(String::from).collect()
}

#[test]
fn lines_are_those_of_std() {
    let texts = [
        "",
        "a",
        "a\n",
        "a\nb",
        "a\nb\n",
        "\n",
        "\n\n",
        "a\n\nb",
        "a\r\nb\r\n",
        "a\r",
        "a\r\r\n",
        "\r\n",
        "\r",
        "a\rb\n",
        "x\n\r",
        "é\nüber\r\n日本",
    ];
    for text in texts {
        assert_eq!(split_lines(text), text_lines(text), "text {:?}", text);
        assert_eq!(count_lines(text), text.lines().count(), "text {:?}", text);
    }
}

#[test]
fn lines_of_given_texts() {
    assert_eq!(split_lines("one\ntwo\r\nthree"), vec!["one", "two", "three"]);
    assert_eq!(split_lines("last\r"), vec!["last\r"]);
    assert_eq!(split_lines("\n"), vec![""]);
    assert!(split_lines("").is_empty());
    assert_eq!(count_lines("one\ntwo\r\nthree"), 3);
    assert_eq!(count_lines("one\n"), 1);
    assert_eq!(count_lines(""), 0);
}

#[test]
fn decimal_numerals() {
    assert_eq!(decimal(0), "0");
    assert_eq!(decimal(7), "7");
    assert_eq!(decimal(10), "10");
    assert_eq!(decimal(150), "150");
    assert_eq!(decimal(1_000_001), "1000001");
    assert_eq!(decimal(9_876_543_210), "9876543210");
    assert_eq!(decimal(u64::MAX), "18446744073709551615");
}

#[test]
fn decimal_is_appended() {
    let mut out = String::from("n=");
    push_decimal(&mut out, 42);
    push_decimal(&mut out, 0);
    assert_eq!(out, "n=420");
}

#[test]
fn white_space_is_that_of_unicode() {
    for code in 0..=0x3100u32 {
        if let Some(c) = char::from_u32(code) {
            assert_eq!(is_whitespace(c), c.is_whitespace(), "U+{:04X}", code);
        }
    }
    assert!(!is_whitespace('\u{FEFF}'));
    assert!(!is_whitespace('\u{200B}'));
    assert!(!is_whitespace('\u{10FFFF}'));
}

#[test]
fn blank_texts() {
    assert!(is_blank(""));
    assert!(is_blank(" \t\r\n"));
    assert!(is_blank("\u{a0}\u{2003}\u{3000}"));
    assert!(!is_blank(" x "));
    assert!(!is_blank("\0"));
    assert!(!is_blank("\u{200b}"));
}

#[test]
fn same_text_compares_characters() {
    assert!(same_text("", ""));
    assert!(same_text("abc", "abc"));
    assert!(same_text("naïve", "naïve"));
    assert!(!same_text("abc", "abd"));
    assert!(!same_text("abc", "ab"));
    assert!(!same_text("", "a"));
    assert!(!same_text("ABC", "abc"));
}

#[test]
fn characters_of_a_text() {
    assert_eq!(chars_of("aß日"), vec!['a', 'ß', '日']);
    assert!(chars_of("").is_empty());
}

#[test]
fn last_character() {
    assert!(ends_with_char("a\n", '\n'));
    assert!(!ends_with_char("a\nb", '\n'));
    assert!(!ends_with_char("", '\n'));
    assert!(ends_with_char("é", 'é'));
}

#[test]
fn parts_are_joined() {
    let parts: Vec<String> = ["a", "b", "", "d"].iter().map(|s| s.to_string()).collect();
    let mut out = String::from(">");
    push_joined(&mut out, &parts, 0, 4, '/');
    assert_eq!(out, ">a/b//d");
    let mut out = String::new();
    push_joined(&mut out, &parts, 1, 2, '\n');
    assert_eq!(out, "b");
    let mut out = String::from("x");
    push_joined(&mut out, &parts, 2, 2, '\n');
    assert_eq!(out, "x");
}
