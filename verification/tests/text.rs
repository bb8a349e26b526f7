use tv_shell::text::{
    chars_of, contains_text, decimal, eq_ignore_case, is_before, is_control, is_whitespace, join,
    lines, parse_int, parse_uint, same_text, signed_decimal, split_char, split_once, strip_prefix,
    text_in, text_of, to_lower, trim, words,
};

const SAMPLES: [&str; 16] = [
    "",
    " ",
    "a",
    " a ",
    "a,b",
    ",a,,b,",
    "one two  three\tfour\n",
    "line\nline\r\nline\r",
    "\n\n",
    "\u{a0}wide\u{3000}",
    "héllo wörld",
    "=",
    "key=value=more",
    "+12",
    "-12",
    "18446744073709551615",
];

#[test]
fn texts_are_read_as_std_reads_them() {
    for s in SAMPLES {
        assert_eq!(chars_of(s), s.chars().collect::<Vec<char>>(), "{s:?}");
        assert_eq!(text_of(&chars_of(s)), s, "{s:?}");
        assert_eq!(trim(s), s.trim(), "{s:?}");
        assert_eq!(split_char(s, ','), s.split(',').collect::<Vec<_>>(), "{s:?}");
        assert_eq!(lines(s), s.lines().collect::<Vec<_>>(), "{s:?}");
        assert_eq!(words(s), s.split_whitespace().collect::<Vec<_>>(), "{s:?}");
        let cut = s.split_once('=').map(|(a, b)| (a.to_string(), b.to_string()));
        assert_eq!(split_once(s, '='), cut, "{s:?}");
        assert_eq!(strip_prefix(s, "a").as_deref(), s.strip_prefix('a'), "{s:?}");
        assert_eq!(parse_uint(s, 10, u64::MAX), s.parse::<u64>().ok(), "{s:?}");
        assert_eq!(parse_uint(s, 10, 255), s.parse::<u8>().ok().map(u64::from), "{s:?}");
        assert_eq!(parse_int(s), s.parse::<i64>().ok(), "{s:?}");
        for t in SAMPLES {
            assert_eq!(same_text(s, t), s == t, "{s:?} {t:?}");
            assert_eq!(contains_text(s, t), s.contains(t), "{s:?} {t:?}");
            assert_eq!(eq_ignore_case(s, t), s.eq_ignore_ascii_case(t), "{s:?} {t:?}");
            assert_eq!(is_before(s, t), s < t, "{s:?} {t:?}");
        }
    }
}

#[test]
fn characters_are_told_apart_as_std_does() {
    for n in 0u32..0x3100 {
        if let Some(c) = char::from_u32(n) {
            assert_eq!(is_whitespace(c), c.is_whitespace(), "{c:?}");
            assert_eq!(is_control(c), c.is_control(), "{c:?}");
            assert_eq!(to_lower(c), c.to_ascii_lowercase(), "{c:?}");
        }
    }
}

#[test]
fn numbers_are_written_as_std_writes_them() {
    for n in [0u64, 1, 9, 10, 99, 100, 12345, u64::MAX] {
        assert_eq!(decimal(n), n.to_string());
    }
    for n in [0i64, 7, -7, 100, -100, i64::MAX, i64::MIN] {
        assert_eq!(signed_decimal(n), n.to_string());
    }
}

#[test]
fn numbers_of_other_bases_have_their_limits() {
    assert_eq!(parse_uint("ff", 16, 255), Some(255));
    assert_eq!(parse_uint("FF", 16, 255), Some(255));
    assert_eq!(parse_uint("100", 16, 255), None);
    assert_eq!(parse_uint("fg", 16, 255), None);
    assert_eq!(parse_uint("+", 10, 255), None);
    assert_eq!(parse_int("-9223372036854775808"), Some(i64::MIN));
    assert_eq!(parse_int("-9223372036854775809"), None);
    assert_eq!(parse_int("9223372036854775808"), None);
}

#[test]
fn texts_are_joined() {
    let parts: Vec<String> = ["a", "", "b"].iter().map(|s| s.to_string()).collect();
    assert_eq!(join(&parts, ", "), "a, , b");
    assert_eq!(join(&Vec::new(), ", "), "");
    assert!(text_in(&["a", "b"], "b"));
    assert!(!text_in(&["a", "b"], "c"));
}
