use chess_study::text::{
    append_chars, chars_of, contains, decimal_digits, find_first, find_last, is_whitespace,
    matches_at, starts_with, strip_prefix, trimmed,
};

fn chars(s: &str) -> Vec<char> {
    s.chars().collect()
}

fn text(s: &[char]) -> String {
    s.iter().collect()
}

#[test]
fn white_space_is_what_the_standard_library_says() {
    for code in 0..=0x10FFFFu32 {
        if let Some(c) = char::from_u32(code) {
            assert_eq!(is_whitespace(c), c.is_whitespace(), "U+{:04X}", code);
        }
    }
}

#[test]
fn trimming_agrees_with_the_standard_library() {
    for s in
        ["", " ", "a", "  a b  ", "\t\r\n x \u{a0}\u{3000}", "\u{2003}.\u{85}", "no space", " \n "]
    {
        assert_eq!(text(trimmed(&chars(s))), s.trim());
    }
}

#[test]
fn characters_come_out_in_order() {
    assert_eq!(chars_of("a\u{fc}\u{2654}z"), vec!['a', '\u{fc}', '\u{2654}', 'z']);
    assert_eq!(chars_of(""), Vec::<char>::new());
}

#[test]
fn first_and_last_index_are_found() {
    let s = chars("a:b:c");
    assert_eq!(find_first(&s, ':'), Some(1));
    assert_eq!(find_last(&s, ':'), Some(3));
    assert_eq!(find_first(&s, 'c'), Some(4));
    assert_eq!(find_last(&s, 'a'), Some(0));
    assert_eq!(find_first(&s, 'x'), None);
    assert_eq!(find_last(&s, 'x'), None);
    assert_eq!(find_first(&[], 'x'), None);
}

#[test]
fn prefixes_are_recognised() {
    let s = chars("[FEN \"8\"]");
    assert!(starts_with(&s, "[FEN \""));
    assert!(starts_with(&s, ""));
    assert!(!starts_with(&s, "[FEN  "));
    assert!(!starts_with(&chars("[FE"), "[FEN"));
    assert_eq!(text(strip_prefix(&chars("WM25: Y"), "WM25: ")), "Y");
    assert_eq!(text(strip_prefix(&chars("WM25:Y"), "WM25: ")), "WM25:Y");
    assert_eq!(text(strip_prefix(&chars("\u{fc}\u{fc}x"), "\u{fc}\u{fc}")), "x");
}

#[test]
fn patterns_are_found_anywhere() {
    let s = chars("8/8 b - -");
    assert!(contains(&s, &chars(" b ")));
    assert!(contains(&s, &chars("8/8")));
    assert!(contains(&s, &chars("- -")));
    assert!(contains(&s, &chars("")));
    assert!(!contains(&s, &chars(" w ")));
    assert!(!contains(&chars("b "), &chars(" b ")));
    assert!(matches_at(&s, &chars("/8"), 1));
    assert!(!matches_at(&s, &chars("/8"), 2));
    assert!(!matches_at(&s, &chars("- -"), 7));
    assert!(matches_at(&s, &chars(""), 9));
    assert!(!matches_at(&s, &chars(""), 10));
}

#[test]
fn numbers_are_written_in_decimal() {
    for n in [0u64, 1, 9, 10, 11, 99, 100, 12345, 1_000_000_007, u64::MAX] {
        assert_eq!(text(&decimal_digits(n)), n.to_string());
    }
}

#[test]
fn characters_are_added_at_the_end() {
    let mut s = chars("12");
    append_chars(&mut s, &chars(". a:"));
    assert_eq!(text(&s), "12. a:");
    append_chars(&mut s, &[]);
    assert_eq!(text(&s), "12. a:");
}
