use wg_subscriber::list::{copied, difference, holds, unique};
use wg_subscriber::text::{
    before, decimal_text, head, insert_in_order, join, lines, parse_u16, parse_u64, rsplit_once,
    split, split_once, split_words, starts_with, trim,
};

fn list(items: &[&str]) -> Vec<String> {
    items.iter().map(|s| s.to_string()).collect()
}

#[test]
fn splitting_keeps_empty_pieces() {
    for text in ["", "a", ",", "a,b", ",a,,b,", "\u{e9},\u{1F600}"] {
        let expected: Vec<&str> = text.split(',').collect();
        assert_eq!(split(text, ','), expected);
        assert_eq!(head(text, ','), expected[0]);
    }
}

#[test]
fn words_are_what_white_space_separates() {
    for text in ["", " ", " a  b\tc\n", "a\u{a0}b\u{3000}c", "\u{200b}x"] {
        let expected: Vec<&str> = text.split_whitespace().collect();
        assert_eq!(split_words(text), expected);
        assert_eq!(trim(text), text.trim());
    }
}

#[test]
fn lines_end_with_or_without_return() {
    for text in ["", "\n", "a", "a\n", "a\r\nb", "a\r\n\nb\r", "\r\n", "a\rb\n"] {
        let expected: Vec<&str> = text.lines().collect();
        assert_eq!(lines(text), expected, "{:?}", text);
    }
}

#[test]
fn texts_are_cut_in_two() {
    for text in ["", ":", "a", "a:b", "a:b:c", ":b", "a:"] {
        let own = |p: Option<(&str, &str)>| p.map(|(a, b)| (a.to_string(), b.to_string()));
        assert_eq!(split_once(text, ':'), own(text.split_once(':')));
        assert_eq!(rsplit_once(text, ':'), own(text.rsplit_once(':')));
    }
}

#[test]
fn numbers_are_read_and_written() {
    for text in ["", "+", "0", "+7", "007", "65535", "65536", "-1", "1 ", "18446744073709551615",
        "18446744073709551616", "99999999999999999999999", "1_0", "\u{661}"]
    {
        assert_eq!(parse_u16(text), text.parse().ok(), "{}", text);
        assert_eq!(parse_u64(text), text.parse().ok(), "{}", text);
    }
    for n in [0, 9, 10, 65535, u64::MAX] {
        assert_eq!(decimal_text(n), n.to_string());
        assert_eq!(parse_u64(&decimal_text(n)), Some(n));
    }
}

#[test]
fn joining_and_beginning() {
    assert_eq!(join(&list(&["a", "", "b"]), ", "), "a, , b");
    assert_eq!(join(&[], ","), "");
    assert!(starts_with("wg0", "wg") && starts_with("wg", "wg") && starts_with("x", ""));
    assert!(!starts_with("w", "wg") && !starts_with("eth0", "wg"));
}

#[test]
fn texts_are_ordered() {
    let words = ["", "a", "aa", "ab", "b", "B", "\u{e9}", "z", "\u{1F600}"];
    for x in words {
        for y in words {
            assert_eq!(before(x, y), x < y);
        }
    }
    let mut sorted = Vec::new();
    for word in words {
        insert_in_order(&mut sorted, word.to_string());
    }
    let mut expected = list(&words);
    expected.sort();
    assert_eq!(sorted, expected);
}

#[test]
fn lists_of_texts() {
    let some = list(&["b", "a", "b", "c", "a"]);
    assert_eq!(copied(&some), some);
    assert_eq!(unique(&some), list(&["b", "a", "c"]));
    assert!(holds(&some, "c") && !holds(&some, "d"));
    assert_eq!(difference(&some, &list(&["a", "x"])), list(&["b", "b", "c"]));
}
