use hf_hub::text::{
    decimal, join_char, padded_decimal, parse_usize, replace_char, replace_str, split_char, trim,
};

fn strings(parts: &[&str]) -> Vec<String> {
    parts.iter().map(|s| s.to_string()).collect()
}

#[test]
fn split_keeps_empty_pieces() {
    assert_eq!(split_char("a/b/c", '/'), strings(&["a", "b", "c"]));
    assert_eq!(split_char("", '/'), strings(&[""]));
    assert_eq!(split_char("/a/", '/'), strings(&["", "a", ""]));
    assert_eq!(split_char("abc", '/'), strings(&["abc"]));
}

#[test]
fn join_glues_with_separator() {
    assert_eq!(join_char(&strings(&["a", "b", "c"]), '/'), "a/b/c");
    assert_eq!(join_char(&Vec::new(), '/'), "");
    assert_eq!(join_char(&strings(&["", ""]), '/'), "/");
}

#[test]
fn split_join_round_trip() {
    for s in ["", "/", "a//b", "huggingface/hub/models--gpt2", "x/"] {
        assert_eq!(join_char(&split_char(s, '/'), '/'), s);
    }
    let parts = strings(&["huggingface", "hub", "", "x"]);
    assert_eq!(split_char(&join_char(&parts, '/'), '/'), parts);
}

#[test]
fn replace_char_replaces_every_occurrence() {
    assert_eq!(replace_char("refs/pr/1", '/', "%2F"), "refs%2Fpr%2F1");
    assert_eq!(replace_char("\"abc\"", '"', ""), "abc");
    assert_eq!(replace_char("main", '/', "%2F"), "main");
}

#[test]
fn replace_str_left_to_right() {
    assert_eq!(replace_str("aaa", "aa", "b"), "ba");
    assert_eq!(replace_str("{x}/{x}", "{x}", "y"), "y/y");
    assert_eq!(replace_str("abc", "zz", "y"), "abc");
    assert_eq!(replace_str("", "a", "b"), "");
}

#[test]
fn trim_removes_unicode_white_space() {
    assert_eq!(trim("  hf_abc \n"), "hf_abc");
    assert_eq!(trim("\u{3000}\ttok\u{a0}"), "tok");
    assert_eq!(trim(" \n\t "), "");
    assert_eq!(trim("a b"), "a b");
    assert_eq!(trim(""), "");
}

#[test]
fn decimal_and_padding() {
    assert_eq!(decimal(0), "0");
    assert_eq!(decimal(1234), "1234");
    assert_eq!(decimal(usize::MAX), usize::MAX.to_string());
    assert_eq!(padded_decimal(7, 4), "0007");
    assert_eq!(padded_decimal(12345, 3), "12345");
    assert_eq!(padded_decimal(0, 0), "0");
}

#[test]
fn parse_usize_like_std() {
    for s in ["0", "007", "+5", "+", "-1", "", "18446744073709551615", "18446744073709551616", "1a", " 1", "٣"] {
        assert_eq!(parse_usize(s), s.parse::<usize>().ok(), "input {:?}", s);
    }
}

#[test]
fn padded_numbers_parse_back() {
    for (n, w) in [(0usize, 1usize), (5, 4), (1024, 4), (999, 2), (usize::MAX, 25)] {
        assert_eq!(parse_usize(&padded_decimal(n, w)), Some(n));
    }
}

#[test]
fn padded_numbers_sort_as_numbers() {
    let w = 5;
    let nums = [0usize, 9, 10, 99, 100, 12345, 4000];
    for &a in &nums {
        for &b in &nums {
            assert_eq!(padded_decimal(a, w) < padded_decimal(b, w), a < b);
        }
    }
}
