use clearclip::text::{
    blank, contains, redact, decimal_string, ends_with, eq_ignore_case, less_text, parse_i64, parse_u64,
    same_text, trim_str,
};

#[test]
fn trimming_matches_std() {
    for s in ["", "  a b  ", "\t\nx\u{3000}", "\u{a0}", "no", " \u{2028}y\u{85} "] {
        assert_eq!(trim_str(s), s.trim());
        assert_eq!(blank(s), s.trim().is_empty());
    }
}

#[test]
fn comparisons_match_std() {
    let words = ["", "a", "A", "ab", "b", "视频", "video", "Video", "99", "100"];
    for a in words {
        for b in words {
            assert_eq!(less_text(a, b), a < b);
            assert_eq!(same_text(a, b), a == b);
            assert_eq!(eq_ignore_case(a, b), a.eq_ignore_ascii_case(b));
            assert_eq!(contains(a, b), a.contains(b));
            assert_eq!(ends_with(a, b), a.ends_with(b));
        }
    }
}

#[test]
fn numbers_match_std() {
    for n in [0u128, 7, 10, 12345, u64::MAX as u128] {
        assert_eq!(decimal_string(n), n.to_string());
    }
    for s in ["0", "-12", "+5", "", "-", "9223372036854775807", "9223372036854775808", "-9223372036854775808", "1a", " 1"] {
        assert_eq!(parse_i64(s), s.parse::<i64>().ok());
        assert_eq!(parse_u64(s), s.parse::<u64>().ok());
    }
}

#[test]
fn secrets_are_hidden() {
    assert_eq!(redact("a key1 b key1", "key1"), "a *** b ***");
    assert_eq!(redact("nothing here", "key1"), "nothing here");
    assert_eq!(redact("text", ""), "text");
    assert_eq!(redact("**", "**"), "");
    assert!(!redact("xaabb", "ab").contains("ab"));
}
