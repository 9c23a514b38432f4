use redditclient::text::{contains_str, decimal_i64, decimal_u64, parse_i32, remove_all_str};

#[test]
fn decimal_notation() {
    assert_eq!(decimal_u64(0), "0");
    assert_eq!(decimal_u64(7), "7");
    assert_eq!(decimal_u64(1024), "1024");
    assert_eq!(decimal_u64(u64::MAX), u64::MAX.to_string());
    assert_eq!(decimal_i64(0), "0");
    assert_eq!(decimal_i64(-42), "-42");
    assert_eq!(decimal_i64(i64::MIN), i64::MIN.to_string());
    assert_eq!(decimal_i64(i64::MAX), i64::MAX.to_string());
}

#[test]
fn parse_i32_accepts_what_str_parse_accepts() {
    let cases = [
        "0", "12", "+7", "-0", "-17", "007", "2147483647", "2147483648", "-2147483648",
        "-2147483649", "", "-", "+", "12a", " 1", "1 ", "--1", "+-1", "99999999999999999999",
        "０", "1_000",
    ];
    for c in cases.iter() {
        assert_eq!(parse_i32(c), c.parse::<i32>().ok(), "input {:?}", c);
    }
}

#[test]
fn contains_finds_substrings() {
    assert!(contains_str("comment--depth-3", "comment--depth"));
    assert!(contains_str("xcomment--depth", "comment--depth"));
    assert!(!contains_str("comment-depth-3", "comment--depth"));
    assert!(contains_str("abc", ""));
    assert!(!contains_str("", "a"));
}

#[test]
fn remove_all_takes_out_every_occurrence() {
    assert_eq!(remove_all_str("comment--depth-12", "comment--depth-"), "12");
    assert_eq!(remove_all_str("aXXbXXc", "XX"), "abc");
    assert_eq!(remove_all_str("aaa", "aa"), "a");
    assert_eq!(remove_all_str("aaaa", "aa"), "");
    assert_eq!(remove_all_str("nothing here", "zz"), "nothing here");
    for (s, p) in [("comment--depth-comment--depth-4", "comment--depth-"), ("ababab", "bab"), ("éàé", "à")] {
        assert_eq!(remove_all_str(s, p), s.replace(p, ""));
    }
}

#[test]
fn decimal_reads_back_through_parse() {
    for v in [0i32, 1, 9, 10, 255, -1, -10, i32::MAX, i32::MIN] {
        assert_eq!(parse_i32(&decimal_i64(v as i64)), Some(v));
    }
    // beyond the range of an i32 the notation does not read back
    assert_eq!(parse_i32(&decimal_i64(i32::MAX as i64 + 1)), None);
}
