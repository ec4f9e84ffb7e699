use git_scroll::text::{
    chars_of, contains, count_words, decimal_text, digit_text, ends_with, is_white, le,
};

const SAMPLES: [&str; 24] = [
    "",
    "a",
    "b",
    "ab",
    "ba",
    "abc",
    "abcabc",
    "aab",
    ".git",
    "git",
    "/path/to/.git",
    "node_modules",
    "my_target_list.rs",
    "target",
    "A",
    "é",
    "e\u{301}",
    "日本語",
    "日本",
    "本語",
    "\u{10FFFF}",
    "\u{FFFF}",
    "z",
    " ",
];

#[test]
fn characters_are_those_of_the_string() {
    for text in SAMPLES {
        assert_eq!(chars_of(text), text.chars().collect::<Vec<char>>());
    }
}

#[test]
fn contains_agrees_with_std() {
    for hay in SAMPLES {
        for needle in SAMPLES {
            assert_eq!(contains(hay, needle), hay.contains(needle), "{:?} in {:?}", needle, hay);
        }
    }
    assert!(contains("abc", ""));
    assert!(contains("", ""));
    assert!(!contains("", "a"));
    assert!(contains("xxabcabd", "abcabd"));
    assert!(!contains("abcab", "abcabd"));
}

#[test]
fn ends_with_agrees_with_std() {
    for text in SAMPLES {
        for suffix in SAMPLES {
            assert_eq!(ends_with(text, suffix), text.ends_with(suffix), "{:?} {:?}", text, suffix);
        }
    }
    assert!(ends_with("repo.git", ".git"));
    assert!(!ends_with("repo.git ", ".git"));
    assert!(!ends_with("git", ".git"));
}

#[test]
fn the_order_of_strings_agrees_with_std() {
    for a in SAMPLES {
        for b in SAMPLES {
            assert_eq!(le(a, b), a <= b, "{:?} {:?}", a, b);
        }
    }
    assert!(le("", "a"));
    assert!(le("a", "a"));
    assert!(le("a", "ab"));
    assert!(!le("ab", "a"));
    assert!(le("Z", "a"));
    assert!(le("a", "é"));
    assert!(le("\u{FFFF}", "\u{10000}"));
}

#[test]
fn white_space_agrees_with_std() {
    for code in 0..=0x10FFFFu32 {
        if let Some(c) = char::from_u32(code) {
            assert_eq!(is_white(c), c.is_whitespace(), "U+{:04X}", code);
        }
    }
}

#[test]
fn words_are_runs_without_white_space() {
    assert_eq!(count_words("hello world this is a test"), 6);
    assert_eq!(count_words(""), 0);
    assert_eq!(count_words("   "), 0);
    assert_eq!(count_words("one"), 1);
    assert_eq!(count_words("  one  "), 1);
    assert_eq!(count_words("a\tb\nc\r\nd\u{3000}e\u{A0}f"), 6);
    assert_eq!(count_words("a\u{200B}b"), 1);
    let texts = [
        "fn main() { println!(\"hi\"); }",
        " leading and trailing ",
        "tabs\tand\nnew\u{2028}lines\u{85}",
        "日本語 の テキスト",
        "x",
        " \u{1680} ",
    ];
    for text in texts {
        assert_eq!(count_words(text), text.split_whitespace().count(), "{:?}", text);
    }
}

#[test]
fn numbers_are_written_in_decimal_digits() {
    assert_eq!(decimal_text(0), "0");
    assert_eq!(decimal_text(7), "7");
    assert_eq!(decimal_text(10), "10");
    assert_eq!(decimal_text(1234567890), "1234567890");
    assert_eq!(decimal_text(u64::MAX), "18446744073709551615");
    for n in 0..3000u64 {
        assert_eq!(decimal_text(n), n.to_string());
    }
    for d in 0..10u64 {
        assert_eq!(digit_text(d), d.to_string());
    }
}
