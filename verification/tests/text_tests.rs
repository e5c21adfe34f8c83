use jedis::text::{eq_ignore_ascii_case, lines, parse_u64, parse_usize, str_eq, to_uppercase, trim_str, u64_to_string};

#[test]
fn decimal_formatting() {
    assert_eq!(u64_to_string(0), "0");
    assert_eq!(u64_to_string(1234567890), "1234567890");
    assert_eq!(u64_to_string(u64::MAX), "18446744073709551615");
}

#[test]
fn unsigned_parsing_matches_std() {
    for s in ["0", "42", "+42", "007", "", "+", "-1", "-0", "4 2", " 42", "18446744073709551615", "18446744073709551616", "99999999999999999999999", "1a", "٣"] {
        assert_eq!(parse_u64(s), s.parse::<u64>().ok(), "{:?}", s);
        assert_eq!(parse_usize(s), s.parse::<usize>().ok(), "{:?}", s);
    }
}

#[test]
fn trimming_matches_std() {
    for s in ["  a b  ", "\t\r\nx\r\n", "", "   ", "\u{a0}y\u{3000}", "z"] {
        assert_eq!(trim_str(s), s.trim(), "{:?}", s);
    }
}

#[test]
fn lines_match_std() {
    for s in ["a\nb", "a\r\nb\r\n", "", "\n", "\n\n", "x\r", "one\rtwo\nthree", "end\n"] {
        let expected: Vec<String> = s.lines().map(|l| l.to_string()).collect();
        assert_eq!(lines(s), expected, "{:?}", s);
    }
}

#[test]
fn comparisons() {
    assert!(str_eq("abc", "abc"));
    assert!(!str_eq("abc", "abd"));
    assert!(eq_ignore_ascii_case("MoNiToR", "MONITOR"));
    assert!(!eq_ignore_ascii_case("MONITOR!", "MONITOR"));
    assert!(!eq_ignore_ascii_case("é", "É"));
}

#[test]
fn uppercase_matches_std() {
    assert_eq!(to_uppercase("hset"), "HSET");
    assert_eq!(to_uppercase("straße"), "STRASSE");
}
