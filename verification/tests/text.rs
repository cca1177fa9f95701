use video_downloader::text::{
    parse_u64_chars, split_char, to_lower, to_upper, trimmed, u64_to_string,
};

fn chars(s: &str) -> Vec<char> {
    s.chars().collect()
}

#[test]
fn ascii_case_changes_only_letters() {
    assert_eq!(to_lower(&chars("AbC-É1")), chars("abc-É1"));
    assert_eq!(to_upper(&chars("av01")), chars("AV01"));
}

#[test]
fn trimming_and_splitting_follow_str() {
    assert_eq!(trimmed(&chars(" \t a b \n")), chars("a b"));
    assert_eq!(split_char(&chars("a|b||c"), '|'), vec![chars("a"), chars("b"), chars(""), chars("c")]);
    assert_eq!(split_char(&chars(""), '|'), vec![chars("")]);
}

#[test]
fn decimal_numbers_round_trip() {
    assert_eq!(parse_u64_chars(&chars("18446744073709551615")), Some(u64::MAX));
    assert_eq!(parse_u64_chars(&chars("18446744073709551616")), None);
    assert_eq!(parse_u64_chars(&chars("+5")), Some(5));
    assert_eq!(parse_u64_chars(&chars("")), None);
    assert_eq!(parse_u64_chars(&chars("1 2")), None);
    assert_eq!(u64_to_string(0), "0");
    assert_eq!(u64_to_string(1234567890), "1234567890");
}
