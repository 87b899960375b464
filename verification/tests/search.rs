use std::sync::Arc;

use kafkamitter::model::message::MessageRecord;
use kafkamitter::model::search::{contains_ignore_ascii_case, needle};

fn record(key: Option<&str>, value: Option<&str>, headers: &[(&str, Option<&str>)]) -> MessageRecord {
    let headers: Vec<(&str, Option<&[u8]>)> = headers.iter().map(|(n, v)| (*n, v.map(|v| v.as_bytes()))).collect();
    MessageRecord::new(
        Arc::new("t".to_string()),
        0,
        1,
        Some(0),
        key.map(|k| k.as_bytes()),
        value.map(|v| v.as_bytes()),
        &headers,
    )
}

fn matches(record: &MessageRecord, needle: &[u8]) -> bool {
    kafkamitter::model::search::matches(record, needle)
}

#[test]
fn builds_a_lowercase_needle_and_ignores_an_empty_query() {
    assert_eq!(needle(""), None);
    assert_eq!(needle("AbC").as_deref(), Some(b"abc".as_slice()));
}

#[test]
fn finds_a_term_in_any_case() {
    assert!(contains_ignore_ascii_case(b"Hello World", b"hello"));
    assert!(contains_ignore_ascii_case(b"HELLO", b"ell"));
    assert!(contains_ignore_ascii_case(b"xxhellox", b"hello"));
    assert!(!contains_ignore_ascii_case(b"Hello", b"world"));
}

#[test]
fn handles_the_edges_of_the_haystack() {
    assert!(contains_ignore_ascii_case(b"abc", b"abc"));
    assert!(contains_ignore_ascii_case(b"abc", b"c"));
    assert!(contains_ignore_ascii_case(b"abc", b"a"));
    assert!(!contains_ignore_ascii_case(b"ab", b"abc"));
    assert!(!contains_ignore_ascii_case(b"", b"a"));
    assert!(contains_ignore_ascii_case(b"", b""));
}

#[test]
fn retries_after_a_partial_match() {
    assert!(contains_ignore_ascii_case(b"aab", b"ab"));
    assert!(contains_ignore_ascii_case(b"AAAAB", b"aab"));
    assert!(!contains_ignore_ascii_case(b"aaaa", b"aab"));
}

#[test]
fn searches_bytes_that_are_not_utf8() {
    assert!(contains_ignore_ascii_case(&[0xff, b'O', b'K', 0xfe], b"ok"));
}

#[test]
fn matches_the_value_the_key_and_the_headers() {
    let r = record(Some("order-77"), Some(r#"{"status":"NEW"}"#), &[("source", Some("ms-account"))]);
    assert!(matches(&r, b"new"));
    assert!(matches(&r, b"order-77"));
    assert!(matches(&r, b"source"));
    assert!(matches(&r, b"ms-account"));
    assert!(!matches(&r, b"missing"));
}

#[test]
fn handles_a_tombstone_and_a_header_without_a_value() {
    let r = record(Some("k1"), None, &[("trace", None)]);
    assert!(matches(&r, b"k1"));
    assert!(matches(&r, b"trace"));
    assert!(!matches(&r, b"anything"));
}

#[test]
fn a_query_finds_any_mix_of_cases() {
    let term = needle("ÄbC").unwrap();
    assert_eq!(term, "Äbc".as_bytes());
    assert!(contains_ignore_ascii_case("xÄBcx".as_bytes(), &term));
    assert!(!contains_ignore_ascii_case("xäbcx".as_bytes(), &term));
}
