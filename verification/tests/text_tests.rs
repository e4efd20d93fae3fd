use sysadmin::text::{
    decimal_string, parse_u64_chars, render_lines, str_contains, str_lines, str_starts_with,
    str_trim, chars_of, join_strings, replace_first_chars,
};

#[test]
fn trim_matches_std_on_unicode_whitespace() {
    for s in ["  a b  ", "\u{3000}x\u{85}", "\u{200B}y", "", "   ", "\t\n z \r"] {
        assert_eq!(str_trim(s), s.trim());
    }
}

#[test]
fn lines_match_std() {
    for s in ["", "a", "a\n", "a\r\nb", "a\n\nb\n", "x\r", "\n", "a\r\r\n"] {
        let expected: Vec<String> = s.lines().map(|l| l.to_string()).collect();
        assert_eq!(str_lines(s), expected);
    }
}

#[test]
fn contains_and_starts_with() {
    assert!(str_contains("listen-on port 53 { any; }", "any;"));
    assert!(!str_contains("any", "any;"));
    assert!(str_contains("abc", ""));
    assert!(str_starts_with("listen-on port 53 {", "listen-on port 53"));
    assert!(!str_starts_with("listen", "listen-on"));
}

#[test]
fn parse_matches_std() {
    for s in ["0", "42", "+7", "+", "", "-1", "12a", "18446744073709551615", "18446744073709551616", "007"] {
        assert_eq!(parse_u64_chars(&chars_of(s)), s.parse::<u64>().ok(), "{s}");
    }
}

#[test]
fn decimal_round_trip() {
    for n in [0u64, 9, 10, 2024061512, u64::MAX] {
        assert_eq!(decimal_string(n), n.to_string());
        assert_eq!(parse_u64_chars(&chars_of(&decimal_string(n))), Some(n));
    }
}

#[test]
fn render_then_read_back() {
    let lines = vec!["a".to_string(), "".to_string(), "b c".to_string()];
    let text = render_lines(&lines);
    assert_eq!(text, "a\n\nb c\n");
    assert_eq!(str_lines(&text), lines);
}

#[test]
fn join_and_remove() {
    let parts = vec!["x".to_string(), "y".to_string()];
    assert_eq!(join_strings(&parts, "\n"), "x\ny");
    assert_eq!(join_strings(&Vec::new(), "\n"), "");
}

#[test]
fn join_then_read_back() {
    let lines = vec!["/srv/a *(ro)".to_string(), "x\r".to_string()];
    let text = join_strings(&lines, "\n");
    assert_eq!(str_lines(&text), lines);
}

#[test]
fn replace_first_matches_replacen() {
    for (s, p, r) in [("abc", "", "X"), ("", "", "X"), ("a1b1", "1", "2"), ("abc", "z", "y"), ("", "a", "b"), ("aaa", "aa", "b")] {
        let out: String = replace_first_chars(&chars_of(s), &chars_of(p), &chars_of(r)).into_iter().collect();
        assert_eq!(out, s.replacen(p, r, 1));
    }
}
