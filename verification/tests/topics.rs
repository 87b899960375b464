use std::sync::Arc;

use kafkamitter::kafka::metadata::{PartitionInfo, TopicInfo};
use kafkamitter::ui::topics::{answers, new_topic, TopicListDelegate};

fn topic(name: &str, partitions: i32) -> Arc<TopicInfo> {
    Arc::new(TopicInfo {
        name: name.into(),
        partitions: (0..partitions)
            .map(|id| PartitionInfo { id, leader: 1, replicas: vec![1], isr: vec![1] })
            .collect(),
    })
}

fn names(list: &TopicListDelegate) -> Vec<String> {
    (0..list.items_count()).map(|row| list.topic_at(row).unwrap().name.clone()).collect()
}

fn list() -> TopicListDelegate {
    let mut list = TopicListDelegate::new();
    list.set_topics(vec![topic("Orders", 3), topic("__consumer_offsets", 50), topic("payments", 1)]);
    list
}

#[test]
fn internal_topics_are_hidden_until_they_are_wanted() {
    let mut list = list();
    assert_eq!(names(&list), ["Orders", "payments"]);
    list.set_show_internal(true);
    assert!(list.show_internal());
    assert_eq!(names(&list), ["Orders", "__consumer_offsets", "payments"]);
    assert!(list.topic_at(3).is_none());
}

#[test]
fn a_search_goes_by_parts_of_names_in_any_case() {
    let mut list = list();
    list.perform_search("  ORD ");
    assert_eq!(names(&list), ["Orders"]);
    list.perform_search("Y");
    assert_eq!(names(&list), ["payments"]);
    list.perform_search("");
    assert_eq!(list.items_count(), 2);
}

#[test]
fn letters_outside_ascii_are_lowered_too() {
    let mut list = TopicListDelegate::new();
    list.set_topics(vec![topic("\u{c4}PFEL", 1)]);
    list.perform_search("\u{e4}pfel");
    assert_eq!(list.items_count(), 1);
}

#[test]
fn an_empty_query_answers_to_all() {
    assert!(answers("orders", ""));
    assert!(answers("orders", "rder"));
    assert!(!answers("orders", "orders2"));
    assert!(!answers("", "a"));
}

#[test]
fn a_topic_is_selected_by_name_where_it_is_listed() {
    let mut list = list();
    assert_eq!(list.select_topic("payments"), Some(1));
    assert_eq!(list.selected_topic().unwrap().name, "payments");
    assert_eq!(list.select_topic("__consumer_offsets"), None);
    assert_eq!(list.selected, Some(1));
    list.set_topics(vec![topic("new", 1)]);
    assert_eq!(list.selected, None);
    assert!(list.selected_topic().is_none());
}

#[test]
fn the_clicked_topic_goes_before_the_selected_one() {
    let mut list = list();
    assert!(list.topic_to_delete().is_none());
    list.set_selected_index(Some(0));
    assert_eq!(list.topic_to_delete().unwrap().name, "Orders");
    list.set_right_clicked_index(Some(1));
    assert_eq!(list.right_clicked_topic().unwrap().name, "payments");
    assert_eq!(list.topic_to_delete().unwrap().name, "payments");
    list.set_right_clicked_index(Some(9));
    assert_eq!(list.topic_to_delete().unwrap().name, "Orders");
}

#[test]
fn a_new_topic_is_read_from_its_form() {
    let spec = new_topic(" orders ", " 3", "+2", " 86400000 ").unwrap();
    assert_eq!(spec.name, "orders");
    assert_eq!(spec.partitions, 3);
    assert_eq!(spec.replication_factor, 2);
    assert_eq!(spec.configs, vec![("retention.ms".to_string(), "86400000".to_string())]);
    assert!(new_topic("orders", "1", "1", " ").unwrap().configs.is_empty());
    assert_eq!(new_topic("o", "1", "1", "-1").unwrap().configs.len(), 1);
}

#[test]
fn a_form_without_a_topic_says_why() {
    assert_eq!(new_topic(" ", "0", "0", "x").unwrap_err(), "Topic name must not be empty");
    assert_eq!(new_topic("t", "0", "0", "x").unwrap_err(), "Partitions must be a positive number");
    assert_eq!(new_topic("t", "1", "many", "x").unwrap_err(), "Replication factor must be a positive number");
    assert_eq!(new_topic("t", "1", "1", "x").unwrap_err(), "Retention must be a number of milliseconds");
    assert_eq!(new_topic("t", "2147483648", "1", "").unwrap_err(), "Partitions must be a positive number");
}
