use std::sync::Arc;

use kafkamitter::kafka::metadata::{PartitionInfo, TopicInfo};
use kafkamitter::kafka::produce::{delivery, enqueue_failure, Delivered};
use kafkamitter::model::settings::Settings;
use kafkamitter::ui::produce::ProduceView;
use kafkamitter::ui::settings::{positive_number, SettingsForm};

fn topic(name: &str, ids: &[i32]) -> Arc<TopicInfo> {
    Arc::new(TopicInfo {
        name: name.into(),
        partitions: ids
            .iter()
            .map(|id| PartitionInfo { id: *id, leader: 1, replicas: vec![1], isr: vec![1] })
            .collect(),
    })
}

#[test]
fn settings_go_through_the_form_unchanged() {
    let settings = Settings {
        auto_consume_on_select: false,
        newest_per_partition: 77,
        open_newest_message: false,
        pretty_json_default: true,
        max_messages: 1234,
        max_megabytes: 9,
    };
    assert_eq!(SettingsForm::new(&settings).build().unwrap(), settings);
    assert_eq!(SettingsForm::new(&Settings::default()).build().unwrap(), Settings::default());
}

#[test]
fn numbers_in_the_settings_are_positive() {
    let mut form = SettingsForm::new(&Settings::default());
    form.newest = " 5 ".into();
    assert_eq!(form.build().unwrap().newest_per_partition, 5);
    form.max_megabytes = "0".into();
    assert_eq!(form.build().unwrap_err(), "Maximum memory must be a positive number");
    form.max_messages = "-1".into();
    assert_eq!(form.build().unwrap_err(), "Maximum messages kept must be a positive number");
    form.newest = "".into();
    assert_eq!(form.build().unwrap_err(), "Newest messages per partition must be a positive number");
    assert_eq!(positive_number("12", "X"), Ok(12));
    assert_eq!(positive_number("1.5", "X"), Err("X must be a positive number".to_string()));
}

#[test]
fn a_message_is_built_from_its_form() {
    let mut view = ProduceView::new();
    assert!(view.build_request().is_none());
    assert!(view.send().is_none());
    let items = view.set_topic(Some(4), Some(topic("orders", &[0, 7]))).unwrap();
    assert_eq!(items, ["Auto", "Partition 0", "Partition 7"]);
    view.value = "{}".into();
    let plain = view.build_request().unwrap();
    assert_eq!(plain.topic, "orders");
    assert_eq!(plain.partition, None);
    assert_eq!(plain.key, None);
    assert_eq!(plain.value, Some(b"{}".to_vec()));
    assert!(plain.headers.is_empty());
    view.key = "k\u{e9}".into();
    view.partition = 2;
    view.add_header();
    view.add_header();
    view.headers[0] = (" trace ".into(), "1".into());
    view.headers[1] = ("  ".into(), "dropped".into());
    let (worker, request) = view.send().unwrap();
    assert_eq!(worker, 4);
    assert_eq!(request.partition, Some(7));
    assert_eq!(request.key, Some("k\u{e9}".as_bytes().to_vec()));
    assert_eq!(request.headers, vec![("trace".to_string(), Some(b"1".to_vec()))]);
    assert!(view.sending);
    view.partition = 9;
    assert_eq!(view.build_request().unwrap().partition, None);
}

#[test]
fn what_became_of_a_message_is_said() {
    let mut view = ProduceView::new();
    view.set_topic(Some(1), Some(topic("t", &[0])));
    let (_, request) = view.send_test_message().unwrap();
    assert_eq!(request.key, Some(b"kafkamitter".to_vec()));
    assert_eq!(request.value, Some(b"{\"source\":\"kafkamitter\",\"hello\":true}".to_vec()));
    let said = view.on_sent(Ok(Delivered { partition: 2, offset: 40 }));
    assert_eq!(said, "Produced to partition 2 at offset 40");
    assert_eq!(view.last_result.as_deref(), Some("Produced to partition 2 at offset 40"));
    assert!(!view.sending);
    assert_eq!(view.on_sent(Err("gone".into())), "Produce failed: gone");
    assert!(view.set_topic(Some(1), Some(topic("t", &[0]))).is_none());
    assert!(view.last_result.is_some());
    assert_eq!(view.set_topic(None, None).unwrap(), ["Auto"]);
    assert!(view.last_result.is_none());
}

#[test]
fn a_header_can_be_removed() {
    let mut view = ProduceView::new();
    view.add_header();
    view.add_header();
    view.headers[1].0 = "kept".into();
    view.remove_header(5);
    assert_eq!(view.headers.len(), 2);
    view.remove_header(0);
    assert_eq!(view.headers.len(), 1);
    assert_eq!(view.headers[0].0, "kept");
}

#[test]
fn delivery_reports_are_read() {
    assert_eq!(delivery(Ok((1, 2))), Ok(Delivered { partition: 1, offset: 2 }));
    assert_eq!(delivery(Err("timeout".into())), Err("delivery failed: timeout".to_string()));
    assert_eq!(enqueue_failure("full"), "enqueue failed: full");
}
