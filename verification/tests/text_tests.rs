use rustdoc_markdown::text::{
    chars_of, contains_str, decimal_string, join_strings, lines, repeat_char, replace_str, split_str,
    starts_with, string_of,
};
use rustdoc_markdown::cli::{parse_id, parse_u32, repo_name_from_url};

#[test]
fn chars_round_trip() {
    let cs = chars_of("héllo");
    assert_eq!(cs, vec!['h', 'é', 'l', 'l', 'o']);
    assert_eq!(string_of(&cs), "héllo");
}

#[test]
fn prefix_and_contains() {
    assert!(starts_with("::foo", "::"));
    assert!(!starts_with(":foo", "::"));
    assert!(starts_with("abc", ""));
    assert!(contains_str("a::b", "::"));
    assert!(!contains_str("a:b", "::"));
    assert!(contains_str("", ""));
}

#[test]
fn replace_is_left_to_right_and_non_overlapping() {
    assert_eq!(replace_str("aaa", "aa", "b"), "ba");
    assert_eq!(replace_str("core::marker::Send", "core::marker::", ""), "Send");
    assert_eq!(replace_str("x-y-z", "-", "_"), "x_y_z");
    assert_eq!(replace_str("abc", "zz", "q"), "abc");
}

#[test]
fn split_matches_str_split() {
    assert_eq!(split_str("a::b::c", "::"), vec!["a", "b", "c"]);
    assert_eq!(split_str("a:::b", "::"), vec!["a", ":b"]);
    assert_eq!(split_str("::", "::"), vec!["", ""]);
    assert_eq!(split_str("", "::"), vec![""]);
    for s in ["a::b", "::x::", "plain", ""] {
        let expected: Vec<String> = s.split("::").map(|p| p.to_string()).collect();
        assert_eq!(split_str(s, "::"), expected);
    }
}

#[test]
fn join_then_split_gives_back_the_parts() {
    let parts = vec!["std".to_string(), "vec".to_string(), "Vec".to_string()];
    let joined = join_strings(&parts, "::");
    assert_eq!(joined, "std::vec::Vec");
    assert_eq!(split_str(&joined, "::"), parts);
    assert_eq!(join_strings(&Vec::new(), ", "), "");
}

#[test]
fn lines_match_str_lines() {
    for s in ["a\nb", "a\r\nb\n", "", "\n", "x\r", "one\n\ntwo"] {
        let expected: Vec<String> = s.lines().map(|l| l.to_string()).collect();
        assert_eq!(lines(s), expected, "lines of {:?}", s);
    }
}

#[test]
fn repeat_and_decimal() {
    assert_eq!(repeat_char(' ', 4), "    ");
    assert_eq!(repeat_char('x', 0), "");
    assert_eq!(decimal_string(0), "0");
    assert_eq!(decimal_string(1207), "1207");
    assert_eq!(decimal_string(usize::MAX), usize::MAX.to_string());
}

#[test]
fn repo_names() {
    assert_eq!(repo_name_from_url("https://github.com/rust-lang/rust.git").unwrap(), "rust");
    assert_eq!(repo_name_from_url("https://github.com/a/b").unwrap(), "b");
    assert_eq!(repo_name_from_url("no-slash.git.git").unwrap(), "no-slash");
    assert_eq!(repo_name_from_url("https://host/x/").unwrap(), "");
}

#[test]
fn ids_parse_like_u32() {
    assert_eq!(parse_id("42"), Ok(42));
    assert_eq!(parse_id("+7"), Ok(7));
    assert_eq!(parse_id("4294967295"), Ok(u32::MAX));
    assert_eq!(
        parse_id("4294967296"),
        Err("Invalid ID: '4294967296'. Must be a non-negative integer.".to_string())
    );
    assert_eq!(
        parse_id("-1"),
        Err("Invalid ID: '-1'. Must be a non-negative integer.".to_string())
    );
    for s in ["", "+", "12a", " 1", "007", "99999999999"] {
        assert_eq!(parse_u32(s), s.parse::<u32>().ok(), "parse of {:?}", s);
    }
}

#[test]
fn decimal_text_reads_back() {
    for n in [0usize, 9, 10, 65535, 4294967295] {
        assert_eq!(parse_u32(&decimal_string(n)), Some(n as u32));
    }
}
