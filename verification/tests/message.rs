use std::sync::Arc;

use kafkamitter::model::message::{
    fits_in_a_record, format_timestamp, preview, preview_line, HeaderSpan, MessageRecord, MessageStore,
};

fn topic() -> Arc<String> {
    Arc::new("t".to_string())
}

fn record(offset: i64, value_len: usize) -> MessageRecord {
    record_with_value(offset, &vec![b'x'; value_len])
}

fn record_with_value(offset: i64, value: &[u8]) -> MessageRecord {
    MessageRecord::new(topic(), 0, offset, Some(1_700_000_000_000), Some(b"k"), Some(value), &[])
}

#[test]
fn newest_message_is_row_zero() {
    let mut store = MessageStore::new(10, 1 << 20);
    store.push_batch(vec![record(1, 1), record(2, 1), record(3, 1)]);
    assert_eq!(store.get(0).unwrap().offset, 3);
    assert_eq!(store.get(2).unwrap().offset, 1);
    assert!(store.get(3).is_none());
}

#[test]
fn evicts_by_count() {
    let mut store = MessageStore::new(3, 1 << 20);
    store.push_batch((1..=5).map(|o| record(o, 1)).collect());
    assert_eq!(store.len(), 3);
    assert_eq!(store.get(0).unwrap().offset, 5);
    assert_eq!(store.get(2).unwrap().offset, 3);
    assert_eq!(store.total_received(), 5);
}

#[test]
fn evicts_by_bytes_and_keeps_the_newest() {
    let one = record(1, 1000).byte_len();
    let mut store = MessageStore::new(100, one * 2 + one / 2);
    store.push_batch(vec![record(1, 1000), record(2, 1000), record(3, 1000)]);
    assert_eq!(store.len(), 2);
    assert_eq!(store.get(1).unwrap().offset, 2);
    assert!(store.total_bytes() <= one * 2 + one / 2);

    let mut small = MessageStore::new(100, 10);
    small.push_batch(vec![record(9, 5000)]);
    assert_eq!(small.len(), 1);
}

#[test]
fn clear_resets_rows_and_bytes_but_not_received_count() {
    let mut store = MessageStore::new(10, 1 << 20);
    store.push_batch(vec![record(1, 10), record(2, 10)]);
    store.clear();
    assert!(store.is_empty());
    assert_eq!(store.total_bytes(), 0);
    assert_eq!(store.total_received(), 2);
}

#[test]
fn a_search_term_filters_the_rows_and_survives_eviction() {
    let mut store = MessageStore::new(10, 1 << 20);
    store.push_batch(vec![record(1, 10), record(2, 10)]);
    assert!(!store.has_query());
    assert_eq!(store.matched_len(), 2);
    assert_eq!(store.matched_rows(), vec![0, 1]);

    store.set_query(Some(b"xxxx".to_vec()));
    assert!(store.has_query());
    assert_eq!(store.matched_len(), 2, "every value holds the term");

    store.set_query(Some(b"nothing".to_vec()));
    assert_eq!(store.matched_len(), 0);
    assert_eq!(store.matched_rows(), Vec::<usize>::new());

    store.set_query(None);
    assert_eq!(store.matched_len(), 2);
}

#[test]
fn the_match_count_follows_new_and_evicted_messages() {
    let mut store = MessageStore::new(2, 1 << 20);
    store.set_query(Some(b"k".to_vec()));
    store.push_batch(vec![record(1, 5), record(2, 5), record(3, 5)]);
    assert_eq!(store.len(), 2);
    assert_eq!(store.matched_len(), 2, "the key of every message holds the term");

    store.set_query(Some(b"zzz".to_vec()));
    store.push_batch(vec![record(4, 5)]);
    assert_eq!(store.matched_len(), 0);
    store.clear();
    assert_eq!(store.matched_len(), 0);
}

#[test]
fn matched_rows_are_newest_first() {
    let mut store = MessageStore::new(10, 1 << 20);
    store.push_batch(vec![record(1, 1), record_with_value(7, b"needle"), record(9, 1)]);
    store.set_query(Some(b"needle".to_vec()));
    let rows = store.matched_rows();
    assert_eq!(rows.len(), 1);
    assert_eq!(store.get(rows[0]).unwrap().offset, 7);
}

#[test]
fn a_record_keeps_its_parts_in_one_buffer() {
    let record = MessageRecord::new(
        topic(),
        2,
        5,
        None,
        Some(b"key"),
        Some(b"value"),
        &[("trace", Some(b"abc")), ("empty", None)],
    );
    assert_eq!(record.key(), Some(b"key".as_slice()));
    assert_eq!(record.value(), Some(b"value".as_slice()));
    assert!(record.has_headers());
    let headers: Vec<(&str, Option<&[u8]>)> = record.headers();
    assert_eq!(headers, vec![("trace", Some(b"abc".as_slice())), ("empty", None)]);
    assert_eq!(record.key_preview().as_str(), "key");
    assert_eq!(record.value_preview().as_str(), "value");

    let tombstone = MessageRecord::new(topic(), 0, 0, None, None, None, &[]);
    assert_eq!(tombstone.key(), None);
    assert_eq!(tombstone.value(), None);
    assert!(!tombstone.has_headers());
    assert_eq!(tombstone.value_preview().as_str(), "<null>");
}

#[test]
fn the_timestamp_text_is_formatted_once() {
    let record = record(1, 1);
    let first = record.timestamp_text().clone();
    assert_eq!(first.as_str(), format_timestamp(record.timestamp_ms));
    assert!(Arc::ptr_eq(&first, record.timestamp_text()));
    let none = MessageRecord::new(topic(), 0, 0, None, None, None, &[]);
    assert_eq!(none.timestamp_text().as_str(), "-");
}

#[test]
fn previews_flatten_whitespace_and_truncate() {
    assert_eq!(preview(None, 10).as_str(), "<null>");
    assert_eq!(preview(Some(b""), 10).as_str(), "<empty>");
    assert_eq!(preview(Some(b"a\nb\tc"), 10).as_str(), "a b c");
    assert_eq!(preview(Some(b"0123456789abc"), 10).as_str(), "0123456789…");
    assert_eq!(preview(Some("héllo".as_bytes()), 3).as_str(), "hél…");
    assert_eq!(preview(Some(b"\xff\xfeok"), 10).as_str(), "\u{fffd}\u{fffd}ok");
    assert_eq!(preview(Some("aé😀b".as_bytes()), 1).as_str(), "a…");
    assert_eq!(preview(Some("a€€€€".as_bytes()), 2).as_str(), "a€…");
    assert_eq!(preview(Some("€€€".as_bytes()), 0).as_str(), "…");
    assert_eq!(preview(Some(b"ab\xffcdefghij"), 2).as_str(), "ab…");
}

#[test]
fn a_preview_of_a_cut_text_ends_in_an_ellipsis() {
    assert_eq!(preview_line("a\r\nb", true, 9), "a  b…");
    assert_eq!(preview_line("abc", false, 3), "abc");
    assert_eq!(preview_line("abcd", false, 0), "…");
}

#[test]
fn timestamps_end_in_their_milliseconds() {
    assert!(format_timestamp(Some(1_700_000_000_007)).ends_with(".007"));
    assert!(format_timestamp(Some(-1)).ends_with(".999"));
    assert!(format_timestamp(Some(8_210_266_876_799_999)).ends_with(".999"));
    assert!(format_timestamp(Some(-8_334_601_228_800_000)).ends_with(".000"));
    assert_eq!(format_timestamp(Some(8_210_266_876_800_000)), "-");
    assert_eq!(format_timestamp(Some(-8_334_601_228_800_001)), "-");
    assert_eq!(format_timestamp(Some(i64::MAX)), "-");
    assert_eq!(format_timestamp(None), "-");
}

#[test]
fn a_record_counts_its_memory() {
    let record_size = std::mem::size_of::<MessageRecord>();
    let header_size = std::mem::size_of::<HeaderSpan>();
    let plain = MessageRecord::new(topic(), 0, 0, None, None, None, &[]);
    assert_eq!(plain.byte_len(), 6 + 6 + record_size + 32);
    assert_eq!(plain.checked_byte_len(), Some(plain.byte_len()));
    let full = MessageRecord::new(topic(), 0, 0, None, Some(b"ab"), Some("é".as_bytes()), &[("h", Some(b"xyz"))]);
    assert_eq!(full.byte_len(), 8 + header_size + 2 + 2 + record_size + 32);
    let other = MessageRecord::new(topic(), 7, 9, Some(1), Some(b"abc"), Some("é".as_bytes()), &[("h", Some(b"xyz"))]);
    assert_eq!(other.byte_len() - full.byte_len(), 2);
    let _ = other.timestamp_text();
    assert_eq!(other.byte_len() - full.byte_len(), 2);
}

#[test]
fn a_store_never_holds_more_than_it_received() {
    let mut store = MessageStore::new(3, 1 << 20);
    assert!(store.has_room(&vec![record(1, 1)]));
    store.push_batch((1..=5).map(|o| record(o, 1)).collect());
    assert_eq!((store.len(), store.total_received()), (3, 5));
    store.clear();
    assert_eq!((store.len(), store.total_received()), (0, 5));
}

#[test]
fn a_timestamp_is_shown_by_a_clock_less_than_a_day_away() {
    let shown = format_timestamp(Some(1_700_000_000_007));
    assert_eq!(shown.len(), "2023-11-14 22:13:20.007".len());
    assert!(["2023-11-13", "2023-11-14", "2023-11-15"].contains(&&shown[..10]), "got {shown}");
    assert_ne!(format_timestamp(Some(7)), shown);
}

#[test]
fn new_limits_evict_at_once_and_batches_add_up() {
    let mut at_once = MessageStore::new(4, 1 << 20);
    at_once.push_batch((1..=9).map(|o| record(o, 3)).collect());
    let mut in_parts = MessageStore::new(4, 1 << 20);
    in_parts.push_batch((1..=6).map(|o| record(o, 3)).collect());
    in_parts.push_batch((7..=9).map(|o| record(o, 3)).collect());
    let offsets = |store: &MessageStore| store.iter().iter().map(|r| r.offset).collect::<Vec<i64>>();
    assert_eq!(offsets(&at_once), vec![9, 8, 7, 6]);
    assert_eq!(offsets(&in_parts), offsets(&at_once));
    assert_eq!(in_parts.total_bytes(), at_once.total_bytes());
    assert_eq!((in_parts.total_received(), at_once.total_received()), (9, 9));
    assert_eq!(in_parts.matched_rows(), at_once.matched_rows());

    at_once.set_limits(0, 1 << 20);
    assert_eq!(offsets(&at_once), vec![9]);
    in_parts.set_limits(4, record(1, 3).byte_len() * 2);
    assert_eq!(offsets(&in_parts), vec![9, 8]);
    assert_eq!(in_parts.total_bytes(), record(1, 3).byte_len() * 2);
}

#[test]
fn ordinary_messages_fit_into_a_record() {
    assert!(fits_in_a_record(None, None, &[]));
    assert!(fits_in_a_record(Some(b"k"), Some(&[0u8; 1000]), &[("h", Some(b"v")), ("n", None)]));
}
