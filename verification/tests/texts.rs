//! Texts, lines, numbers, documents and sorting.

use sakur4_core::evict::Candidate;
use sakur4_core::json::Json;
use sakur4_core::lines::{
    count_of, lines_of, parse_unsigned, split, starts_with, strip_prefix, trim_end,
    trim_end_matches, trim_start_matches,
};
use sakur4_core::order::stable_sort;
use sakur4_core::text::{
    blank, byte_count, comes_before, contains, join, split_once, take_bytes, take_chars, trim,
};

#[test]
fn splitting_and_joining_undo_each_other() {
    for s in ["", "a", "a,b", ",a,,b,", "é,ü"] {
        let parts = split(s, ',');
        assert_eq!(parts, s.split(',').collect::<Vec<_>>());
        assert_eq!(join(&parts, ","), s);
    }
}

#[test]
fn lines_end_with_feeds_or_returns_and_feeds() {
    for s in ["", "a", "a\n", "a\r\nb\n\n", "\r\n", "a\rb\n"] {
        assert_eq!(lines_of(s), s.lines().collect::<Vec<_>>());
    }
}

#[test]
fn affixes_are_taken_off_as_often_as_they_stand_there() {
    assert_eq!(trim_start_matches("a/a/b", "a/"), "b");
    assert_eq!(trim_end_matches("b/a/a", "/a"), "b");
    assert_eq!(trim_end(" a \n"), " a");
    assert_eq!(strip_prefix("key=value", "key=").as_deref(), Some("value"));
    assert_eq!(strip_prefix("value", "key="), None);
    assert!(starts_with("abc", "ab"));
    assert_eq!(count_of("a,b,c", ','), 2);
}

#[test]
fn numbers_are_read_as_they_are_written() {
    for n in [0u64, 7, 10, 18_446_744_073_709_551_615] {
        assert_eq!(parse_unsigned(&n.to_string()), Some(n));
    }
    assert_eq!(parse_unsigned("+5"), Some(5));
    for s in ["", "-1", "1x", "18446744073709551616", "+"] {
        assert_eq!(parse_unsigned(s), s.parse::<u64>().ok());
    }
}

#[test]
fn texts_are_measured_trimmed_and_compared() {
    assert_eq!(byte_count("aé"), 3);
    assert_eq!(take_chars("aéb", 2), "aé");
    assert_eq!(take_bytes("aéb", 2), "a");
    assert_eq!(trim(" \t x \u{3000}"), "x");
    assert!(blank(" \n"));
    assert!(!blank("x"));
    assert_eq!(split_once("k=v=w", '='), Some(("k".into(), "v=w".into())));
    assert!(contains("needle in hay", "in"));
    assert!(!contains("hay", "needle"));
    for (a, b) in [("a", "b"), ("a", "ab"), ("b", "a"), ("", ""), ("z", "é")] {
        assert_eq!(comes_before(a, b), a < b);
    }
}

#[test]
fn documents_are_read_into_plain_values() {
    let doc = Json::parse(r#"{"a": [1, -2, 2.5], "b": "x", "c": true, "d": null}"#).unwrap();
    let list = doc.get("a").unwrap().as_array().unwrap();
    assert_eq!((list[0].as_u64(), list[1].as_i64(), list[1].as_u64()), (Some(1), Some(-2), None));
    assert_eq!(list[2].as_i64(), None);
    assert_eq!(doc.text_at("b"), Some("x"));
    assert_eq!(doc.get("c").unwrap().as_bool(), Some(true));
    assert!(matches!(doc.get("d"), Some(Json::Null)));
    assert!(doc.get("e").is_none());
    assert_eq!((doc.i64_at("b"), doc.u64_at("b")), (None, None));
    assert!(doc.list_at("a"));
    assert!(Json::parse("{").is_none());
}

#[test]
fn sorting_keeps_equals_in_their_order() {
    let item = |value_key, index| Candidate { index, seq: 0, value_key };
    let sorted = stable_sort(vec![item(2, 0), item(1, 1), item(2, 2), item(1, 3)]);
    assert_eq!(sorted, vec![item(1, 1), item(1, 3), item(2, 0), item(2, 2)]);
    assert_eq!(stable_sort(vec![3i64, -1, 2]), vec![-1, 2, 3]);
}
