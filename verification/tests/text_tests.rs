use gitrx::numbers::{parse_unsigned, to_decimal, to_hex};
use gitrx::text::{
    contains_char, contains_text, join_from, lowercase, same_text, split_lines, split_on,
    split_words, starts_with, strip_last, text_before, trim, white,
};

const SAMPLES: [&str; 16] = [
    "", " ", "a", "a b", "  a\tb\n", "\r\n", "a\r\nb", "a\rb", "ÄB c\u{2003}d\u{85}", "a,b,,c",
    "aab", "\n\n", "x\n", "é", "ab", "a\u{10ffff}",
];

#[test]
fn white_space_is_that_of_unicode() {
    for c in (0..=0x10ffffu32).filter_map(char::from_u32) {
        assert_eq!(white(c), c.is_whitespace(), "{c:?}");
    }
}

#[test]
fn text_functions_agree_with_the_standard_library() {
    for s in SAMPLES {
        assert_eq!(trim(s), s.trim());
        assert_eq!(lowercase(s), s.to_ascii_lowercase());
        assert_eq!(split_words(s), s.split_whitespace().collect::<Vec<_>>());
        assert_eq!(split_on(s, ','), s.split(',').collect::<Vec<_>>());
        assert_eq!(split_lines(s), s.lines().collect::<Vec<_>>());
        assert_eq!(strip_last(s, '\n'), s.strip_suffix('\n').unwrap_or(s));
        assert_eq!(contains_char(s, 'a'), s.contains('a'));
        let words: Vec<String> = s.split_whitespace().map(str::to_string).collect();
        assert_eq!(join_from(&words, 0, " "), words.join(" "));
        for t in SAMPLES {
            assert_eq!(contains_text(s, t), s.contains(t), "{s:?} {t:?}");
            assert_eq!(starts_with(s, t), s.starts_with(t));
            assert_eq!(same_text(s, t), s == t);
            assert_eq!(text_before(s, t), s < t, "{s:?} {t:?}");
        }
    }
}

#[test]
fn numbers_agree_with_the_standard_library() {
    for s in [
        "", "+", "-", "0", "007", "+7", "-7", "++7", "12a", " 1", "18446744073709551615",
        "18446744073709551616", "99999999999999999999999", "4294967295", "4294967296", "٣",
    ] {
        assert_eq!(parse_unsigned(s, u64::MAX), s.parse::<u64>().ok(), "{s:?}");
        assert_eq!(
            parse_unsigned(s, u32::MAX as u64),
            s.parse::<u32>().ok().map(u64::from),
            "{s:?}"
        );
    }
    assert_eq!(parse_unsigned("5", 4), None);
    assert_eq!(parse_unsigned("4", 4), Some(4));
    for n in [0, 7, 10, 99, 100, 12345, u64::MAX] {
        assert_eq!(to_decimal(n), n.to_string());
        assert_eq!(parse_unsigned(&to_decimal(n), u64::MAX), Some(n));
        assert_eq!(to_hex(n, 16), format!("{n:016x}"));
    }
}
