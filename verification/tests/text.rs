use codex_quota::text::{
    contains_lowered, contains_text, has_prefix, has_suffix, is_white_space, push_decimal,
    push_doubled_decimal, push_two_digits, rest_after_line_feed, same_text, split_lines, trim_text,
};

const TEXTS: [&str; 9] = ["", "a", "ab", "bä", "äb", "Not Found", "not found", "x\r\ny\n\nz\r", "\n"];

#[test]
fn comparisons_agree_with_the_standard_library() {
    for a in TEXTS {
        for b in TEXTS {
            assert_eq!(same_text(a, b), a == b);
            assert_eq!(has_prefix(a, b), a.starts_with(b));
            assert_eq!(has_suffix(a, b), a.ends_with(b));
            assert_eq!(contains_text(a, b), a.contains(b));
            assert_eq!(contains_lowered(a, b), a.to_ascii_lowercase().contains(b));
        }
    }
}

#[test]
fn lines_agree_with_the_standard_library() {
    for text in TEXTS {
        assert_eq!(split_lines(text), text.lines().collect::<Vec<_>>());
        let rest = text.split_once('\n').map(|(_, rest)| rest).unwrap_or_default();
        assert_eq!(rest_after_line_feed(text), rest);
    }
}

#[test]
fn trimming_agrees_with_the_standard_library() {
    for text in ["", " ", " a b ", "\t\u{2003}x\u{85}", "x", "\u{200b}x"] {
        assert_eq!(trim_text(text), text.trim());
    }
}

#[test]
fn numerals_agree_with_the_standard_library() {
    for value in [0, 1, 9, 10, 99, 100, 86400, u64::MAX] {
        let mut text = String::from("=");
        push_decimal(&mut text, value);
        assert_eq!(text, format!("={value}"));
        let mut padded = String::new();
        push_two_digits(&mut padded, value);
        assert_eq!(padded, format!("{value:02}"));
        let mut doubled = String::new();
        push_doubled_decimal(&mut doubled, value, 60);
        assert_eq!(doubled, format!("{}", value as u128 * (1u128 << 60)));
    }
}

#[test]
fn white_space_agrees_with_the_standard_library() {
    for c in '\0'..=char::MAX {
        assert_eq!(is_white_space(c), c.is_whitespace(), "{c:?}");
    }
}
