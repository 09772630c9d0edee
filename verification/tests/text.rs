use ov3rride::decimal::{format_i32, format_u32, parse_u32};
use ov3rride::text::{chars_of, first_word_chars, lines_str, split_str, string_of, trim_str};

fn split_like_std(s: &str, sep: &str) -> Vec<String> {
    s.split(sep).map(|p| p.to_string()).collect()
}

#[test]
fn trim_removes_unicode_white_space_at_both_ends() {
    assert_eq!(trim_str("  hi there \n"), "hi there");
    assert_eq!(trim_str("\t\u{00A0}x\u{3000}"), "x");
    assert_eq!(trim_str(""), "");
    assert_eq!(trim_str(" \n\t "), "");
    for s in ["a", " a", "a ", "\r\n 42 \r\n", "\u{2028}mid dle\u{205F}", "x\u{200B}"] {
        assert_eq!(trim_str(s), s.trim());
    }
}

#[test]
fn trim_law_on_concrete_text() {
    let once = trim_str("\n  value  \t");
    let twice = trim_str(&once);
    assert_eq!(once, twice);
    assert!(!once.starts_with(char::is_whitespace));
    assert!(!once.ends_with(char::is_whitespace));
}

#[test]
fn split_matches_str_split() {
    for (s, sep) in [
        ("a, b, c", ", "),
        (",, ", ", "),
        ("", ", "),
        (", ", ", "),
        ("no separator", ", "),
        ("/usr/bin/python3", "/"),
        ("a,,b", ","),
        ("aaa", "aa"),
    ] {
        assert_eq!(split_str(s, sep), split_like_std(s, sep), "splitting {:?} at {:?}", s, sep);
    }
}

#[test]
fn split_then_join_gives_back_the_text() {
    for (s, sep) in [("45, 2048, 8192", ", "), ("x, , y, ", ", "), ("", "/"), ("//a/", "/")] {
        assert_eq!(split_str(s, sep).join(sep), s);
    }
}

#[test]
fn lines_match_str_lines() {
    for s in ["a\r\nb\n", "a\n\nb", "x\r", "", "\n", "one", "a\nb\r\n\r\n", "\r\n"] {
        let expected: Vec<String> = s.lines().map(|l| l.to_string()).collect();
        assert_eq!(lines_str(s), expected, "lines of {:?}", s);
    }
}

#[test]
fn first_word_skips_leading_space() {
    let w = first_word_chars(&chars_of("  eDP-1 connected primary"));
    assert_eq!(w.map(|v| string_of(&v)), Some("eDP-1".to_string()));
    assert!(first_word_chars(&chars_of(" \n ")).is_none());
    assert_eq!(first_word_chars(&chars_of("HDMI-0")).map(|v| string_of(&v)), Some("HDMI-0".to_string()));
}

#[test]
fn parse_u32_matches_str_parse() {
    for s in [
        "0", "42", "+7", "007", "4294967295", "4294967296", "99999999999", "", "+", "-1", "-0",
        " 5", "5 ", "1_000", "12a", "++1", "٣",
    ] {
        assert_eq!(parse_u32(s), s.parse::<u32>().ok(), "parsing {:?}", s);
    }
}

#[test]
fn format_u32_writes_decimal() {
    assert_eq!(format_u32(0), "0");
    assert_eq!(format_u32(1234), "1234");
    assert_eq!(format_u32(u32::MAX), "4294967295");
    for n in [1u32, 9, 10, 99, 100, 65535, 1_000_000] {
        assert_eq!(format_u32(n), n.to_string());
    }
}

#[test]
fn format_i32_writes_sign() {
    assert_eq!(format_i32(-42), "-42");
    assert_eq!(format_i32(0), "0");
    assert_eq!(format_i32(i32::MIN), "-2147483648");
    assert_eq!(format_i32(i32::MAX), "2147483647");
}

#[test]
fn decimal_round_trip() {
    for n in [0u32, 7, 10, 350, 4_000_000_000, u32::MAX] {
        assert_eq!(parse_u32(&format_u32(n)), Some(n));
    }
}
