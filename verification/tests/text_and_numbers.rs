use newsroom::numbers::{decimal_string, parse_i64};
use newsroom::text::{chars_of, contains_text, replace_char, split_on, string_from};

fn strings(v: &[&str]) -> Vec<String> {
    v.iter().map(|s| s.to_string()).collect()
}

#[test]
fn split_on_matches_std_split() {
    for s in ["a,b", "", ",", "a,", ",a", "a,,b", "no separator", "é,ü,"] {
        let expected: Vec<String> = s.split(',').map(|p| p.to_string()).collect();
        assert_eq!(split_on(s, ','), expected);
    }
}

#[test]
fn split_on_lines() {
    assert_eq!(split_on("first\nsecond\n", '\n'), strings(&["first", "second", ""]));
}

#[test]
fn replace_char_replaces_every_space() {
    assert_eq!(replace_char("Jane  Doe ", ' ', '-'), "Jane--Doe-");
    assert_eq!(replace_char("", ' ', '-'), "");
}

#[test]
fn contains_text_finds_runs() {
    assert!(contains_text("Jane-Doe,John", "John"));
    assert!(contains_text("abc", ""));
    assert!(!contains_text("ab", "abc"));
    assert!(!contains_text("Jane-Doe", "Jane Doe"));
    assert!(contains_text("aaab", "aab"));
}

#[test]
fn chars_round_trip() {
    let cs = chars_of("héllo");
    assert_eq!(cs, vec!['h', 'é', 'l', 'l', 'o']);
    assert_eq!(string_from(&cs), "héllo");
}

#[test]
fn decimal_string_matches_to_string() {
    for n in [0i64, 5, -5, 10, 99, -100, 1234567, i64::MAX, i64::MIN] {
        assert_eq!(decimal_string(n), n.to_string());
    }
}

#[test]
fn parse_i64_matches_std_parse() {
    let cases = [
        "12", "+7", "-0", "", "-", "+", "12a", " 1", "1 ", "007", "9223372036854775807",
        "9223372036854775808", "-9223372036854775808", "-9223372036854775809",
        "99999999999999999999999", "+-1", "٣",
    ];
    for s in cases {
        assert_eq!(parse_i64(s), s.parse::<i64>().ok(), "input {:?}", s);
    }
}

#[test]
fn parse_i64_undoes_decimal_string() {
    for n in [0i64, 1, -1, 42, -2025, i64::MAX, i64::MIN] {
        assert_eq!(parse_i64(&decimal_string(n)), Some(n));
    }
}
