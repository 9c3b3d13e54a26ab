use vsysmonitor::text::{
    chars_of, contains_chars, decimal_chars, eq_ignore_case_chars, find_char, is_whitespace,
    lowercased, parse_u64_chars, split_lines, split_words, starts_with_chars, str_eq, string_of,
    to_lower, trimmed, u64_to_string, IntErrorKind,
};

fn v(s: &str) -> Vec<char> {
    s.chars().collect()
}

fn strings(parts: Vec<Vec<char>>) -> Vec<String> {
    parts.into_iter().map(|p| p.into_iter().collect()).collect()
}

const SAMPLES: [&str; 10] = [
    "",
    "plain",
    "  two  words ",
    "\tHost a b\r\n  HostName x\n\n",
    "a\r\nb\rc\n",
    "\u{a0}nbsp\u{2003}em\u{3000}",
    "tail\n",
    "\r\n",
    "é ü\u{85}ß",
    "x\ny\r\n\r\nz",
];

#[test]
fn whitespace_and_case_agree_with_std() {
    for c in ['a', ' ', '\t', '\n', '\u{a0}', '\u{2028}', '\u{3000}', 'Z', 'é', '\u{200b}'] {
        assert_eq!(is_whitespace(c), c.is_whitespace(), "{c:?}");
        assert_eq!(to_lower(c), c.to_ascii_lowercase(), "{c:?}");
    }
}

#[test]
fn trim_and_splits_agree_with_std() {
    for s in SAMPLES {
        assert_eq!(chars_of(s), v(s));
        assert_eq!(string_of(&v(s)), s);
        assert_eq!(string_of(&trimmed(&v(s))), s.trim(), "{s:?}");
        assert_eq!(
            strings(split_words(&v(s))),
            s.split_whitespace().map(String::from).collect::<Vec<_>>(),
            "{s:?}"
        );
        assert_eq!(
            strings(split_lines(&v(s))),
            s.lines().map(String::from).collect::<Vec<_>>(),
            "{s:?}"
        );
        assert_eq!(
            string_of(&lowercased(&v(s))),
            s.to_ascii_lowercase(),
            "{s:?}"
        );
    }
}

#[test]
fn searching() {
    assert!(contains_chars(&v("Up 2 hours (healthy)"), &v("healthy")));
    assert!(contains_chars(&v("abc"), &v("")));
    assert!(!contains_chars(&v("ab"), &v("abc")));
    assert!(starts_with_chars(&v("up 3 days"), &v("up ")));
    assert!(!starts_with_chars(&v("upgrade"), &v("up ")));
    assert!(eq_ignore_case_chars(&v("ESC"), &v("esc")));
    assert!(!eq_ignore_case_chars(&v("É"), &v("é")));
    assert_eq!(find_char(&v("a#b#"), '#'), Some(1));
    assert_eq!(find_char(&v("ab"), '#'), None);
    assert!(str_eq("same", "same"));
    assert!(!str_eq("same", "Same"));
}

#[test]
fn decimals_round_trip() {
    for n in [0u64, 7, 10, 99, 100, 12_345, u64::MAX] {
        let text = u64_to_string(n);
        assert_eq!(text, n.to_string());
        assert_eq!(decimal_chars(n), v(&n.to_string()));
        assert_eq!(parse_u64_chars(&v(&text)), Ok(n));
    }
}

#[test]
fn parse_errors_match_std_kinds() {
    assert_eq!(parse_u64_chars(&v("")), Err(IntErrorKind::Empty));
    assert_eq!(parse_u64_chars(&v("+")), Err(IntErrorKind::InvalidDigit));
    assert_eq!(parse_u64_chars(&v("1 2")), Err(IntErrorKind::InvalidDigit));
    assert_eq!(
        parse_u64_chars(&v("99999999999999999999")),
        Err(IntErrorKind::PosOverflow)
    );
    assert_eq!(
        IntErrorKind::Empty.description(),
        "".parse::<u64>().unwrap_err().to_string()
    );
    assert_eq!(
        IntErrorKind::InvalidDigit.description(),
        "x".parse::<u64>().unwrap_err().to_string()
    );
    assert_eq!(
        IntErrorKind::PosOverflow.description(),
        "99999999999999999999".parse::<u64>().unwrap_err().to_string()
    );
    for s in ["0", "+0", "007", "-0", "1_000", "١", "18446744073709551615", "18446744073709551616"] {
        assert_eq!(parse_u64_chars(&v(s)).ok(), s.parse::<u64>().ok(), "{s:?}");
    }
}
