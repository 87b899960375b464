use std::sync::Arc;

use kafkamitter::kafka::consume::{Batch, ConsumeEvent, StartFrom};
use kafkamitter::kafka::groups::{CommittedOffset, GroupMember, GroupSummary};
use kafkamitter::kafka::metadata::{PartitionInfo, TopicInfo, Watermarks};
use kafkamitter::model::assignment::TopicAssignment;
use kafkamitter::model::message::{format_timestamp, MessageRecord};
use kafkamitter::model::settings::Settings;
use kafkamitter::ui::consumers::{lags_can_be_added, ConsumersView, LagMark, RefreshStep};
use kafkamitter::ui::message_table::{
    copied_headers, copied_part, MessageColumn, MessageTableDelegate, SortDirection,
};
use kafkamitter::ui::messages::{
    chosen_moment, civil_readings, midnight, parse_start, parse_timestamp, partition_labels,
    selected_partitions, LocalMoment, MessagesView, ScrollGuard, START_MODES,
};

fn topic(name: &str, ids: &[i32]) -> Arc<TopicInfo> {
    Arc::new(TopicInfo {
        name: name.into(),
        partitions: ids
            .iter()
            .map(|id| PartitionInfo { id: *id, leader: 1, replicas: vec![1], isr: vec![1] })
            .collect(),
    })
}

fn message(partition: i32, offset: i64, ms: i64, value: &str) -> MessageRecord {
    MessageRecord::new(
        Arc::new("t".to_string()),
        partition,
        offset,
        Some(ms),
        Some(b"k"),
        Some(value.as_bytes()),
        &[("h", Some(b"1")), ("n", None)],
    )
}

fn offsets(table: &MessageTableDelegate) -> Vec<i64> {
    (0..table.visible_rows()).map(|row| table.record_at_row(row).unwrap().offset).collect()
}

// ---- the table ----

#[test]
fn rows_go_newest_first_until_they_are_sorted() {
    let mut table = MessageTableDelegate::new();
    table.push_batch(vec![message(0, 1, 30, "c"), message(1, 2, 10, "a"), message(0, 3, 20, "b")]);
    table.ensure_rows();
    assert_eq!(offsets(&table), [3, 2, 1]);
    table.perform_sort(2, Some(SortDirection::Ascending));
    table.ensure_rows();
    assert_eq!(offsets(&table), [2, 3, 1]);
    table.perform_sort(2, Some(SortDirection::Descending));
    table.ensure_rows();
    assert_eq!(offsets(&table), [1, 3, 2]);
    table.perform_sort(2, None);
    table.ensure_rows();
    assert_eq!(offsets(&table), [3, 2, 1]);
}

#[test]
fn the_newest_and_the_oldest_message_are_found_by_their_time() {
    let mut table = MessageTableDelegate::new();
    assert_eq!(table.extreme_row(true), None);
    table.push_batch(vec![message(0, 1, 30, "c"), message(1, 2, 10, "a"), message(0, 3, 20, "b")]);
    table.ensure_rows();
    assert_eq!(table.extreme_row(true), Some(2));
    assert_eq!(table.extreme_row(false), Some(1));
}

#[test]
fn a_search_leaves_only_the_hits() {
    let mut table = MessageTableDelegate::new();
    table.push_batch(vec![message(0, 1, 1, "apple"), message(0, 2, 2, "pear"), message(0, 3, 3, "APPLE pie")]);
    table.set_query("Apple");
    table.ensure_rows();
    assert_eq!(offsets(&table), [3, 1]);
    assert_eq!(table.rows_count(), 2);
    table.set_query("");
    assert_eq!(table.rows_count(), 3);
    table.ensure_rows();
    assert_eq!(offsets(&table), [3, 2, 1]);
}

#[test]
fn columns_can_be_moved() {
    let mut table = MessageTableDelegate::new();
    table.push_batch(vec![message(7, 1, 1, "v")]);
    table.ensure_rows();
    assert_eq!(table.cell_text(0, 0), "7");
    assert_eq!(table.cell_text(0, 1), "1");
    table.move_column(0, 1);
    assert_eq!(table.columns[..2], [MessageColumn::Offset, MessageColumn::Partition]);
    assert_eq!(table.cell_text(0, 1), "7");
    assert!(table.row_text(0).starts_with("1\t7\t"));
}

#[test]
fn the_time_of_a_message_is_formatted_in_the_table() {
    let mut table = MessageTableDelegate::new();
    table.push_batch(vec![message(7, 1, 86_400_000, "v")]);
    table.ensure_rows();
    assert_eq!(table.columns[2], MessageColumn::Timestamp);
    let time = format_timestamp(Some(86_400_000));
    assert_eq!(table.cell_text(0, 2), time);
    assert!(table.row_text(0).starts_with(&format!("7\t1\t{time}\t")));
}

#[test]
fn parts_of_a_message_are_copied_as_text() {
    assert_eq!(copied_part(Some(b"abc")), "abc");
    assert_eq!(copied_part(None), "");
    assert_eq!(copied_headers(&message(0, 1, 1, "v")), "h: 1\nn: ");
}

// ---- where reading starts ----

#[test]
fn the_start_is_read_from_its_mode() {
    assert_eq!(START_MODES.len(), 5);
    assert_eq!(parse_start(0, ""), Ok(StartFrom::Newest(200)));
    assert_eq!(parse_start(1, ""), Ok(StartFrom::Latest));
    assert_eq!(parse_start(2, ""), Ok(StartFrom::Beginning));
    assert_eq!(parse_start(3, " 42 "), Ok(StartFrom::Offset(42)));
    assert_eq!(parse_start(3, "x"), Err("Enter a numeric offset".to_string()));
    assert_eq!(parse_start(4, "1700000000000"), Ok(StartFrom::Timestamp(1_700_000_000_000)));
    assert_eq!(
        parse_start(4, " "),
        Err("Enter a timestamp as unix milliseconds or YYYY-MM-DD HH:MM:SS".to_string())
    );
    assert_eq!(
        parse_start(4, "tomorrow"),
        Err("Timestamp must be unix milliseconds or YYYY-MM-DD HH:MM:SS".to_string())
    );
}

#[test]
fn dates_are_read_in_the_zone_of_the_machine() {
    let day = 86_400_000i64;
    let utc = 1_700_000_000_000i64 / day * day;
    let long = parse_timestamp("2023-11-14 00:00:00").unwrap();
    assert!((long - utc).abs() < day);
    assert_eq!((long - utc) % 1000, 0);
    assert_eq!(parse_timestamp("2023-11-14T00:00:00"), Ok(long));
    assert_eq!(parse_timestamp("2023-11-14 00:00"), Ok(long));
    assert_eq!(parse_timestamp("2023-11-14"), Ok(long));
    assert_eq!(parse_timestamp("2023-11-14 00:00:01"), Ok(long + 1000));
}

#[test]
fn a_text_is_read_as_a_date_with_or_without_a_time() {
    let day = 1_700_000_000i64 / 86_400 * 86_400;
    assert_eq!(civil_readings("2023-11-14 00:00:01"), [Some((day + 1, 0)), None, None, None]);
    assert_eq!(civil_readings("2023-11-14T00:00:01"), [None, Some((day + 1, 0)), None, None]);
    assert_eq!(civil_readings("2023-11-14 00:02"), [None, None, Some((day + 120, 0)), None]);
    assert_eq!(civil_readings("2023-11-14"), [None, None, None, Some((day, 0))]);
    assert_eq!(civil_readings("1969-12-31"), [None, None, None, Some((-86_400, 0))]);
    assert_eq!(civil_readings("soon"), [None, None, None, None]);
    assert_eq!(midnight(1), (86_400, 0));
}

#[test]
fn a_time_that_clocks_skip_or_double_has_no_moment() {
    let missing = LocalMoment::Missing;
    let twice = LocalMoment::Two(5, 6);
    assert_eq!(chosen_moment(&vec![missing, twice, LocalMoment::One(7), LocalMoment::One(8)]), Ok(7));
    assert_eq!(
        chosen_moment(&vec![twice, missing, missing, missing]),
        Err("Timestamp must be unix milliseconds or YYYY-MM-DD HH:MM:SS".to_string())
    );
}

#[test]
fn a_new_view_has_all_columns_and_shows_nothing() {
    let view = MessagesView::new();
    assert_eq!(view.table.columns.len(), 5);
    assert_eq!(view.table.rows_count(), 0);
    assert!(view.table.sort.is_none() && view.table.rows_dirty && !view.table.store.has_query());
}

#[test]
fn the_first_moment_that_there_is_counts() {
    let one = LocalMoment::One;
    assert_eq!(chosen_moment(&vec![LocalMoment::Missing, one(5), one(6)]), Ok(5));
    assert!(chosen_moment(&Vec::new()).is_err());
}

#[test]
fn partitions_are_chosen_from_a_list() {
    let t = Some(topic("t", &[4, 9]));
    assert_eq!(partition_labels("All partitions", &t), ["All partitions", "Partition 4", "Partition 9"]);
    assert_eq!(partition_labels("Auto", &None), ["Auto"]);
    assert!(selected_partitions(&t, 0).is_empty());
    assert_eq!(selected_partitions(&t, 2), vec![9]);
    assert!(selected_partitions(&t, 3).is_empty());
    assert!(selected_partitions(&None, 1).is_empty());
}

#[test]
fn the_wheel_rests_while_the_mouse_drags() {
    let mut guard = ScrollGuard::new();
    assert!(!guard.holds(0));
    assert!(!guard.release(5));
    guard.press();
    assert!(guard.holds(1_000));
    assert!(guard.release(1_000));
    assert!(guard.holds(1_249));
    assert!(!guard.holds(1_250));
}

// ---- messages ----

fn batch(records: Vec<MessageRecord>) -> ConsumeEvent {
    let mut batch = Batch::new();
    for record in records {
        batch.push(record);
    }
    ConsumeEvent::Batch(batch)
}

#[test]
fn a_session_brings_messages_and_catches_up_once() {
    let mut view = MessagesView::new();
    assert!(view.start_default().is_none());
    assert!(view.set_topic(Some(1), Some(topic("t", &[0, 1]))));
    assert!(!view.set_topic(Some(1), Some(topic("t", &[0, 1]))));
    let order = view.start_default().unwrap();
    assert_eq!(order.worker, 1);
    assert_eq!(order.start, StartFrom::Newest(200));
    assert!(order.partitions.is_empty());
    assert_eq!(order.topic.name, "t");
    let number = order.generation;
    view.on_event(number, ConsumeEvent::Assigned(vec![0, 1]));
    view.on_event(number, batch(vec![message(0, 1, 5, "a"), message(1, 2, 4, "b")]));
    assert_eq!(view.status_text("1.0 KB"), "2 shown  \u{b7}  1.0 KB  \u{b7}  caught up 0/2");
    let half = view.on_event(number, ConsumeEvent::Eof(0));
    assert!(!half.open_newest && !half.first_catch_up);
    let again = view.on_event(number, ConsumeEvent::Eof(0));
    assert!(!again.open_newest);
    let full = view.on_event(number, ConsumeEvent::Eof(1));
    assert!(full.open_newest && full.first_catch_up);
    assert_eq!(view.open_newest(), Some(1));
    assert_eq!(view.go_to_top(), Some(0));
    assert_eq!(view.go_to_bottom(), Some(1));
    let later = view.on_event(number, ConsumeEvent::Eof(1));
    assert!(!later.open_newest && !later.first_catch_up);
    view.on_closed(number);
    assert!(!view.running);
    assert_eq!(view.status_text("1.0 KB"), "2 shown  \u{b7}  1.0 KB");
}

#[test]
fn events_of_an_earlier_session_count_no_more() {
    let mut view = MessagesView::new();
    view.set_topic(Some(1), Some(topic("t", &[0])));
    let first = view.start_default().unwrap().generation;
    let second = view.start_with(StartFrom::Beginning, vec![0]).unwrap().generation;
    assert_ne!(first, second);
    view.on_event(first, batch(vec![message(0, 1, 1, "a")]));
    assert_eq!(view.table.store.len(), 0);
    view.on_closed(first);
    assert!(view.running);
    view.on_event(second, ConsumeEvent::Error("late".into()));
    assert!(view.status_text("0 B").ends_with("error: late"));
}

#[test]
fn another_topic_starts_afresh() {
    let mut view = MessagesView::new();
    view.set_topic(Some(1), Some(topic("t", &[0])));
    let number = view.start_default().unwrap().generation;
    view.on_event(number, batch(vec![message(0, 1, 1, "a")]));
    assert!(view.set_topic(Some(2), Some(topic("t", &[0]))));
    assert_eq!(view.table.store.len(), 0);
    assert!(!view.running);
    assert!(view.set_topic(None, None));
    assert_eq!(view.go_to_top(), None);
    assert_eq!(view.go_to_bottom(), None);
    assert_eq!(view.open_newest(), None);
}

#[test]
fn the_controls_say_what_is_read() {
    let mut view = MessagesView::new();
    assert!(view.start(0, "", 0).unwrap().is_none());
    view.set_topic(Some(1), Some(topic("t", &[4, 9])));
    let order = view.start(3, "12", 2).unwrap().unwrap();
    assert_eq!(order.start, StartFrom::Offset(12));
    assert_eq!(order.partitions, vec![9]);
    assert!(view.start(3, "abc", 0).is_err());
    assert_eq!(view.placeholder(3), Some("offset"));
    assert_eq!(view.placeholder(3), None);
    assert_eq!(view.placeholder(4), Some("unix ms or YYYY-MM-DD HH:MM:SS"));
    assert_eq!(view.placeholder(1), None);
}

#[test]
fn limits_of_the_settings_count_at_once() {
    let mut view = MessagesView::new();
    view.set_topic(Some(1), Some(topic("t", &[0])));
    let number = view.start_default().unwrap().generation;
    view.on_event(number, batch((0..5).map(|o| message(0, o, o, "v")).collect()));
    view.apply_settings(&Settings { max_messages: 2, ..Settings::default() });
    assert_eq!(view.table.store.len(), 2);
    assert_eq!(view.table.store.get(0).unwrap().offset, 4);
    assert!(view.status_text("x").starts_with("2 shown  \u{b7}  5 received"));
    view.set_memory_limit(1);
    assert_eq!(view.table.store.len(), 1);
    view.set_search("v");
    assert!(view.status_text("x").starts_with("1 of 1 shown"));
}

// ---- groups ----

fn group(name: &str, partitions: &[i32]) -> GroupSummary {
    GroupSummary {
        name: name.into(),
        state: "Stable".into(),
        protocol_type: "consumer".into(),
        protocol: "range".into(),
        members: vec![GroupMember {
            member_id: "m".into(),
            client_id: "client".into(),
            client_host: "/10.0.0.1".into(),
            assignment: vec![TopicAssignment { topic: "t".into(), partitions: partitions.to_vec() }],
        }],
    }
}

#[test]
fn groups_that_read_the_topic_come_first() {
    let mut view = ConsumersView::new();
    assert!(view.refresh().is_none());
    view.set_topic(true, Some(topic("t", &[0, 1])));
    assert_eq!(view.ensure_loaded(), (true, false));
    assert_eq!(view.ensure_loaded(), (false, false));
    let mut load = view.refresh().unwrap();
    assert_eq!(view.status_text(), "Loading groups");
    let step = view.on_groups(&mut load, Ok(vec![group("idle", &[]), group("busy", &[0, 1])]), true);
    assert_eq!(step, RefreshStep::Stop);
    assert_eq!(view.rows.len(), 1);
    let cells: Vec<String> = (0..4).map(|c| view.rows[0].text_for(c)).collect();
    assert_eq!(cells, ["busy", "Stable", "1", "2"]);
    assert_eq!(view.selected_group.as_deref(), Some("busy"));
    assert_eq!(view.selected_row(), Some(0));
    assert_eq!(view.ensure_loaded(), (false, true));
    assert_eq!(view.status_text(), "");
}

#[test]
fn idle_groups_with_commits_are_found_by_a_scan() {
    let mut view = ConsumersView::new();
    view.set_include_inactive(true);
    view.set_topic(true, Some(topic("t", &[0, 1])));
    let mut load = view.refresh().unwrap();
    let step = view.on_groups(&mut load, Ok(vec![group("a", &[]), group("b", &[0]), group("c", &[])]), false);
    assert_eq!(
        step,
        RefreshStep::Scan { names: vec!["a".to_string(), "c".to_string()], partitions: vec![0, 1] }
    );
    assert_eq!(view.status_text(), "Scanning inactive groups 0/2");
    let commit = |p: i32, c: Option<i64>| CommittedOffset { partition: p, committed: c };
    assert!(view.on_scanned(&mut load, "a", Ok(vec![commit(0, Some(1)), commit(1, None)])));
    assert_eq!(view.rows.len(), 2);
    assert_eq!(view.rows[1].text_for(1), "Stable (inactive)");
    assert_eq!(view.rows[1].text_for(3), "1");
    assert!(view.on_scanned(&mut load, "c", Ok(vec![commit(0, None)])));
    assert_eq!(view.rows.len(), 2);
    view.on_scan_done(&load, Err("slow".into()), false);
    assert_eq!(view.status_text(), "error: slow");
    view.set_topic(true, Some(topic("other", &[0])));
    assert!(!view.on_scanned(&mut load, "c", Err("x".into())));
    assert!(view.rows.is_empty());
}

#[test]
fn the_lag_of_a_group_is_added_up() {
    let mut view = ConsumersView::new();
    view.set_topic(true, Some(topic("t", &[0, 1, 2, 3])));
    let mut load = view.refresh().unwrap();
    view.on_groups(&mut load, Ok(vec![group("g", &[0, 1])]), false);
    assert_eq!(view.offsets_title(), "Select a group to see its offsets");
    assert!(view.select_row(0));
    assert!(!view.select_row(0));
    assert!(!view.select_row(5));
    let order = view.load_offsets().unwrap();
    assert_eq!(order.partitions, vec![0, 1, 2, 3]);
    let mark = |partition: i32, low: i64, high: i64| Watermarks { partition, low, high };
    let commit = |partition: i32, at: i64| CommittedOffset { partition, committed: Some(at) };
    view.on_offsets(
        &order,
        Ok((
            vec![mark(0, 0, 10), mark(1, 5, 10), mark(2, 0, 4), mark(3, 0, 4)],
            vec![commit(0, 10), commit(1, 2), commit(2, 9)],
        )),
    );
    assert_eq!(view.total_lag, Some(5));
    assert_eq!(view.offsets_title(), "g  \u{b7}  total lag 5");
    let lags: Vec<String> = view.offset_rows.iter().map(|r| r.text_for(4)).collect();
    assert_eq!(lags, ["0", "5 (expired)", "0 (reset)", "-"]);
    let marks: Vec<LagMark> = view.offset_rows.iter().map(|r| r.lag_mark(4)).collect();
    assert_eq!(marks, [LagMark::CaughtUp, LagMark::Alarming, LagMark::Alarming, LagMark::Plain]);
    assert_eq!(view.offset_rows[0].text_for(5), "client (/10.0.0.1)");
    assert_eq!(view.offset_rows[3].text_for(3), "-");
    assert_eq!(view.offset_rows[0].lag_mark(0), LagMark::Plain);
    view.on_offsets(&order, Err("denied".into()));
    assert_eq!(view.status_text(), "error: denied");
}

#[test]
fn a_sum_of_lags_must_fit() {
    let marks = |high: i64| {
        vec![
            Watermarks { partition: 0, low: 0, high },
            Watermarks { partition: 1, low: 0, high: 1 },
        ]
    };
    let commits = vec![
        CommittedOffset { partition: 0, committed: Some(0) },
        CommittedOffset { partition: 1, committed: Some(0) },
    ];
    assert!(lags_can_be_added(&marks(i64::MAX - 1), &commits));
    assert!(!lags_can_be_added(&marks(i64::MAX), &commits));
    assert!(lags_can_be_added(&marks(i64::MAX), &Vec::new()));
}
