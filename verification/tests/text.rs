use divamodarchive::search::ids_filter;
use divamodarchive::text::{
    decimal_i64, digits_u64, is_blank, last_segment, parse_i64, push_str, replace, split, starts_with, trimmed,
};

fn chars(s: &str) -> Vec<char> {
    s.chars().collect()
}

fn string_of(v: &Vec<char>) -> String {
    v.iter().collect()
}

#[test]
fn decimal_rendering_matches_display() {
    for n in [0i64, 7, 10, 99, 1234567890, -1, -42, i64::MIN, i64::MAX] {
        assert_eq!(string_of(&decimal_i64(n)), n.to_string());
    }
    assert_eq!(string_of(&digits_u64(u64::MAX)), u64::MAX.to_string());
}

#[test]
fn join_puts_separator_between_neighbours() {
    assert_eq!(ids_filter("pv_id", &vec![1, 2, 3]), "pv_id=1 OR pv_id=2 OR pv_id=3");
    assert_eq!(ids_filter("pv_id", &vec![5]), "pv_id=5");
    assert_eq!(ids_filter("pv_id", &vec![]), "");
}

#[test]
fn blank_strings() {
    assert!(is_blank(""));
    assert!(is_blank(" \t\n\u{3000}"));
    assert!(!is_blank("  x "));
}

#[test]
fn prefixes() {
    assert!(starts_with(&chars("https://x/y"), &chars("https://")));
    assert!(!starts_with(&chars("http"), &chars("https")));
    assert!(starts_with(&chars("abc"), &chars("")));
}

#[test]
fn last_path_segment() {
    assert_eq!(string_of(&last_segment(&chars("12/song pack.zip"), '/')), "song pack.zip");
    assert_eq!(string_of(&last_segment(&chars("plain"), '/')), "plain");
    assert_eq!(string_of(&last_segment(&chars("dir/"), '/')), "");
}

#[test]
fn replacing_every_occurrence() {
    assert_eq!(string_of(&replace(&chars("Bearer abcBearer d"), &chars("Bearer "), &chars(""))), "abcd");
    assert_eq!(string_of(&replace(&chars("aaa"), &chars("aa"), &chars("b"))), "ba");
    assert_eq!(string_of(&replace(&chars("xyz"), &chars("q"), &chars("r"))), "xyz");
}

#[test]
fn trimming() {
    assert_eq!(string_of(&trimmed(&chars("  link\n"))), "link");
    assert_eq!(string_of(&trimmed(&chars("   "))), "");
    assert_eq!(string_of(&trimmed(&chars("a b"))), "a b");
}

#[test]
fn parsing_signed_numbers() {
    assert_eq!(parse_i64("42"), Some(42));
    assert_eq!(parse_i64("+42"), Some(42));
    assert_eq!(parse_i64("-0042"), Some(-42));
    assert_eq!(parse_i64("9223372036854775807"), Some(i64::MAX));
    assert_eq!(parse_i64("-9223372036854775808"), Some(i64::MIN));
    assert_eq!(parse_i64("9223372036854775808"), None);
    assert_eq!(parse_i64("-"), None);
    assert_eq!(parse_i64(""), None);
    assert_eq!(parse_i64("1 2"), None);
    assert_eq!(parse_i64("99999999999999999999999999999999999999999"), None);
    for s in ["17", "-3", "+5", "x", "", "007"] {
        assert_eq!(parse_i64(s), s.parse::<i64>().ok());
    }
}

#[test]
fn splitting_on_a_character() {
    let pieces: Vec<String> = split("1,22,,3", ',').iter().map(string_of).collect();
    assert_eq!(pieces, vec!["1", "22", "", "3"]);
    let pieces: Vec<String> = split("", ',').iter().map(string_of).collect();
    assert_eq!(pieces, vec![""]);
}

#[test]
fn pushing_text() {
    let mut v = chars("ab");
    push_str(&mut v, "cd");
    assert_eq!(string_of(&v), "abcd");
}

#[test]
fn blank_follows_std_white_space() {
    for code in 0u32..=0x10ffff {
        if let Some(c) = char::from_u32(code) {
            assert_eq!(is_blank(&c.to_string()), c.is_whitespace(), "{code:#x}");
        }
    }
}
