use std::sync::Arc;

use kafkamitter::model::message::MessageRecord;
use kafkamitter::ui::message_detail::{
    laid_out, render_bytes, render_tab, tab_bytes, DetailStep, DetailTab, MessageDetailView, INLINE_RENDER_BYTES,
    LARGE_VALUE_BYTES,
};

#[test]
fn json_values_ask_for_the_json_highlighter() {
    let (text, json) = render_bytes(Some(br#"{"id":1}"#), true);
    assert_eq!(text, "{\n  \"id\": 1\n}");
    assert!(json);
}

#[test]
fn plain_values_ask_for_no_highlighter() {
    let (text, json) = render_bytes(Some(b"27a8bf96-332e-4644"), true);
    assert_eq!(text, "27a8bf96-332e-4644");
    assert!(!json, "a header value must not use the json highlighter");
}

#[test]
fn a_missing_or_empty_value_asks_for_no_highlighter() {
    assert_eq!(render_bytes(None, true), (String::from("<null>"), false));
    assert_eq!(render_bytes(Some(&[]), true), (String::from("<empty>"), false));
}

#[test]
fn raw_json_keeps_the_json_highlighter() {
    let (text, json) = render_bytes(Some(br#"{"id":1}"#), false);
    assert_eq!(text, r#"{"id":1}"#);
    assert!(json);
}

#[test]
fn a_large_value_is_shown_raw_without_a_highlighter() {
    let big = format!("{{\"a\":\"{}\"}}", "x".repeat(LARGE_VALUE_BYTES));
    let (text, json) = render_bytes(Some(big.as_bytes()), true);
    assert_eq!(text, big);
    assert!(!json);
}

fn record(value: &[u8], headers: &[(&str, Option<&[u8]>)]) -> Arc<MessageRecord> {
    Arc::new(MessageRecord::new(
        Arc::new("t".to_string()),
        3,
        17,
        None,
        Some(b"key"),
        Some(value),
        headers,
    ))
}

#[test]
fn a_layout_goes_before_the_plain_text() {
    assert_eq!(laid_out(Some("a".into()), "b".into(), false), ("a".to_string(), true));
    assert_eq!(laid_out(None, "b".into(), true), ("b".to_string(), true));
    assert_eq!(laid_out(None, "b".into(), false), ("b".to_string(), false));
}

#[test]
fn broken_bytes_are_shown_with_marks() {
    assert_eq!(render_bytes(Some(&[0x61, 0xff, 0x62]), true), ("a\u{fffd}b".to_string(), false));
}

#[test]
fn headers_are_shown_line_by_line() {
    let r = record(b"v", &[("trace", Some(b"abc")), ("empty", None)]);
    assert_eq!(render_tab(&r, DetailTab::Headers, true), ("trace: abc\nempty: <null>".to_string(), false));
    assert_eq!(tab_bytes(&r, DetailTab::Headers), 5 + 3 + 5);
    assert_eq!(tab_bytes(&r, DetailTab::Key), 3);
    assert_eq!(tab_bytes(&r, DetailTab::Value), 1);
    let bare = record(b"v", &[]);
    assert_eq!(render_tab(&bare, DetailTab::Headers, true), ("<no headers>".to_string(), false));
    assert_eq!(render_tab(&bare, DetailTab::Key, true), ("key".to_string(), false));
}

#[test]
fn a_small_message_is_shown_at_once() {
    let mut view = MessageDetailView::new();
    assert!(!view.can_focus());
    match view.set_record(Some(record(b"[1]", &[]))) {
        DetailStep::Show { text, json } => {
            assert_eq!(text, "[\n  1\n]");
            assert!(json);
        }
        DetailStep::Render { .. } => panic!("a small message needs no other thread"),
    }
    assert!(view.can_focus());
    assert!(!view.rendering);
    assert_eq!(view.generation, 1);
}

#[test]
fn a_large_message_is_laid_out_elsewhere_and_only_the_last_counts() {
    let mut view = MessageDetailView::new();
    let big = vec![b'x'; INLINE_RENDER_BYTES + 1];
    let first = match view.set_record(Some(record(&big, &[]))) {
        DetailStep::Render { generation, tab, pretty, .. } => {
            assert_eq!(tab, DetailTab::Value);
            assert!(pretty);
            generation
        }
        DetailStep::Show { .. } => panic!("a large message is laid out elsewhere"),
    };
    assert!(view.rendering);
    let second = match view.set_pretty(false) {
        DetailStep::Render { generation, pretty, .. } => {
            assert!(!pretty);
            generation
        }
        DetailStep::Show { .. } => panic!("a large message is laid out elsewhere"),
    };
    assert!(!view.on_rendered(first));
    assert!(view.rendering);
    assert!(view.on_rendered(second));
    assert!(!view.rendering);
}

#[test]
fn the_layout_of_the_settings_counts_when_it_is_new() {
    let mut view = MessageDetailView::new();
    assert!(view.set_pretty_default(true).is_none());
    assert!(view.set_pretty_default(false).is_some());
    assert!(!view.pretty);
}

#[test]
fn tabs_are_chosen_by_place() {
    let mut view = MessageDetailView::new();
    view.select_tab(1);
    assert_eq!(view.tab, DetailTab::Key);
    view.select_tab(9);
    assert_eq!(view.tab, DetailTab::Headers);
    view.select_tab(0);
    assert_eq!(view.tab, DetailTab::Value);
    view.show_headers();
    assert_eq!(view.tab, DetailTab::Headers);
    let labels: Vec<&str> = DetailTab::ALL.iter().map(|t| t.label()).collect();
    assert_eq!(labels, ["Value", "Key", "Headers"]);
    assert_eq!(DetailTab::Headers.place(), 2);
}

#[test]
fn the_highlighter_changes_with_the_text() {
    let mut view = MessageDetailView::new();
    assert_eq!(view.show(true), None);
    assert_eq!(view.show(false), Some("text"));
    assert_eq!(view.show(true), Some("json"));
}

#[test]
fn the_line_about_a_message_names_its_place_and_size() {
    let mut view = MessageDetailView::new();
    let r = record(b"abcd", &[]);
    assert_eq!(view.meta_text(&r), format!("partition 3  offset 17  {}  4 bytes", r.timestamp_text()));
    view.rendering = true;
    assert!(view.meta_text(&r).ends_with("4 bytes  \u{b7}  rendering"));
    view.rendering = false;
    let big = record(&vec![b'x'; LARGE_VALUE_BYTES + 1], &[]);
    assert!(view.meta_text(&big).ends_with(" bytes  \u{b7}  large value, shown as plain text"));
    view.tab = DetailTab::Key;
    assert!(view.meta_text(&big).ends_with(" bytes"));
}
