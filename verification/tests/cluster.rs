use std::time::Duration;

use kafkamitter::kafka::admin::{topic_outcome, TopicResult};
use kafkamitter::kafka::group_offsets::{
    parse_event, timeout_message, AdminReply, GroupScan, ListedOffset, ListedOffsets, ScanAction, ScanEvent, SCAN_WINDOW,
};
use kafkamitter::kafka::groups::{
    committed_offsets, list_groups, CommittedOffset, GroupMember, GroupSummary, ListedGroup, ListedMember,
};
use kafkamitter::kafka::import::{
    check_connection, convert_jks, file_stem_for, import_name, missing_ca_message, pem_path, trust_step,
    with_ca_location, TrustStep,
};
use kafkamitter::kafka::metadata::{fetch_cluster, fetch_topic, BrokerInfo, ClusterInfo, PartitionInfo, TopicInfo};
use kafkamitter::model::assignment::TopicAssignment;
use kafkamitter::model::properties::import_properties;

fn partition(id: i32) -> PartitionInfo {
    PartitionInfo { id, leader: 1, replicas: vec![1, 2], isr: vec![1] }
}

fn topic(name: &str, ids: &[i32]) -> TopicInfo {
    TopicInfo { name: name.into(), partitions: ids.iter().map(|id| partition(*id)).collect() }
}

#[test]
fn a_cluster_is_shown_in_order() {
    let brokers = vec![BrokerInfo { id: 2, host: "b".into(), port: 9092 }, BrokerInfo { id: 1, host: "a".into(), port: 9092 }];
    let cluster = fetch_cluster(brokers, vec![topic("b", &[2, 0, 1]), topic("a", &[0]), topic("B", &[])]);
    let names: Vec<&str> = cluster.topics.iter().map(|t| t.name.as_str()).collect();
    assert_eq!(names, ["B", "a", "b"]);
    assert_eq!(cluster.topics[2].partition_ids(), vec![0, 1, 2]);
    assert_eq!(cluster.brokers[0].id, 2);
    assert_eq!(ClusterInfo::default().topics.len(), 0);
}

#[test]
fn a_topic_without_partitions_does_not_exist() {
    assert!(fetch_topic(vec![topic("a", &[])], "a").is_none());
    assert!(fetch_topic(vec![topic("b", &[1])], "a").is_none());
    assert_eq!(fetch_topic(vec![topic("b", &[1]), topic("a", &[5])], "a").unwrap().partition_ids(), vec![5]);
    assert!(topic("__x", &[]).is_internal());
    assert!(!topic("_x", &[]).is_internal());
}

#[test]
fn the_first_failed_topic_is_reported() {
    let fine: Vec<TopicResult> = vec![Ok("a".into())];
    assert_eq!(topic_outcome("create", &fine), Ok(()));
    let bad: Vec<TopicResult> = vec![Ok("a".into()), Err(("b".into(), "exists".into())), Err(("c".into(), "no".into()))];
    assert_eq!(topic_outcome("create", &bad), Err("create topic b: exists".to_string()));
    assert_eq!(topic_outcome("delete", &Vec::new()), Ok(()));
}

fn member(id: &str, topics: &[(&str, &[i32])]) -> GroupMember {
    GroupMember {
        member_id: id.into(),
        client_id: id.into(),
        client_host: "/10.0.0.1".into(),
        assignment: topics
            .iter()
            .map(|(topic, partitions)| TopicAssignment { topic: topic.to_string(), partitions: partitions.to_vec() })
            .collect(),
    }
}

#[test]
fn a_group_lists_its_partitions_by_number() {
    let group = GroupSummary {
        name: "g".into(),
        state: "Stable".into(),
        protocol_type: "consumer".into(),
        protocol: "range".into(),
        members: vec![member("a", &[("t", &[3, 1]), ("u", &[0])]), member("b", &[("t", &[2])])],
    };
    let list: Vec<(i32, &str)> =
        group.partitions_of("t").into_iter().map(|(p, m)| (p, m.member_id.as_str())).collect();
    assert_eq!(list, [(1, "a"), (2, "b"), (3, "a")]);
    assert!(group.consumes("u"));
    assert!(!group.consumes("v"));
    let idle = GroupSummary { members: vec![member("a", &[("t", &[])])], ..group };
    assert!(!idle.consumes("t"));
}

#[test]
fn listed_groups_are_read_and_sorted() {
    let bytes: Vec<u8> = vec![0, 0, 0, 0, 0, 1, 0, 1, b't', 0, 0, 0, 1, 0, 0, 0, 7, 0xff, 0xff, 0xff, 0xff];
    let listed = |name: &str, assignment: Option<Vec<u8>>| ListedGroup {
        name: name.into(),
        state: "Stable".into(),
        protocol_type: "consumer".into(),
        protocol: "range".into(),
        members: vec![ListedMember {
            member_id: "m".into(),
            client_id: "c".into(),
            client_host: "h".into(),
            assignment,
        }],
    };
    let groups = list_groups(vec![listed("b", Some(bytes)), listed("a", Some(vec![1])), listed("c", None)]);
    let names: Vec<&str> = groups.iter().map(|g| g.name.as_str()).collect();
    assert_eq!(names, ["a", "b", "c"]);
    assert!(groups[0].members[0].assignment.is_empty());
    assert_eq!(groups[1].members[0].assignment, vec![TopicAssignment { topic: "t".into(), partitions: vec![7] }]);
    assert!(groups[2].members[0].assignment.is_empty());
}

#[test]
fn commits_are_listed_by_partition() {
    let commit = |partition: i32| CommittedOffset { partition, committed: Some(1) };
    let sorted = committed_offsets(vec![commit(2), commit(0), commit(1)]);
    assert_eq!(sorted.iter().map(|c| c.partition).collect::<Vec<i32>>(), [0, 1, 2]);
}

fn reply(offsets: Vec<ListedOffset>) -> AdminReply {
    AdminReply {
        event_type: 9,
        wanted_type: 9,
        error: None,
        group: Some(ListedOffsets { name: "g".into(), error: None, offsets }),
    }
}

#[test]
fn an_answer_about_a_group_is_read() {
    let (name, commits) = parse_event(reply(vec![
        ListedOffset { partition: 1, failed: false, offset: 5 },
        ListedOffset { partition: 0, failed: true, offset: 5 },
        ListedOffset { partition: 2, failed: false, offset: -1001 },
    ]))
    .unwrap();
    assert_eq!(name, "g");
    assert_eq!(
        commits.unwrap(),
        vec![
            CommittedOffset { partition: 0, committed: None },
            CommittedOffset { partition: 1, committed: Some(5) },
            CommittedOffset { partition: 2, committed: None },
        ]
    );
}

#[test]
fn a_bad_answer_says_what_is_wrong() {
    assert_eq!(
        parse_event(AdminReply { event_type: 4, ..reply(vec![]) }).unwrap_err(),
        "unexpected admin event type 4"
    );
    assert_eq!(
        parse_event(AdminReply { error: Some("denied".into()), ..reply(vec![]) }).unwrap_err(),
        "ListConsumerGroupOffsets: denied"
    );
    assert_eq!(
        parse_event(AdminReply { group: None, ..reply(vec![]) }).unwrap_err(),
        "ListConsumerGroupOffsets result has no group"
    );
    let broken = AdminReply {
        group: Some(ListedOffsets { name: "g".into(), error: Some("dead".into()), offsets: vec![] }),
        ..reply(vec![])
    };
    assert_eq!(parse_event(broken).unwrap(), ("g".to_string(), Err("dead".to_string())));
    assert_eq!(timeout_message("g"), "ListConsumerGroupOffsets timed out for group g");
}

#[test]
fn a_scan_asks_no_more_groups_at_once_than_its_window() {
    let total = SCAN_WINDOW + 3;
    let (mut scan, mut action) = GroupScan::new(total);
    let mut asked = Vec::new();
    let mut under_way = 0usize;
    let mut reports = 0usize;
    loop {
        let event = match action {
            ScanAction::Enqueue(i) => {
                asked.push(i);
                under_way += 1;
                ScanEvent::Enqueued
            }
            ScanAction::StartClock => ScanEvent::ClockStarted,
            ScanAction::Wait => {
                under_way -= 1;
                ScanEvent::Reply
            }
            ScanAction::Report => {
                reports += 1;
                ScanEvent::Taken
            }
            ScanAction::Finish => break,
            ScanAction::ReportFailure(_) | ScanAction::Fail(_) => unreachable!(),
        };
        assert!(under_way <= SCAN_WINDOW);
        action = scan.step(event);
    }
    assert_eq!(asked, (0..total).collect::<Vec<usize>>());
    assert_eq!(reports, total);
}

#[test]
fn a_scan_reports_failures_and_ends_when_it_is_late_or_refused() {
    let (mut scan, action) = GroupScan::new(2);
    assert_eq!(action, ScanAction::Enqueue(0));
    assert_eq!(scan.step(ScanEvent::NotEnqueued), ScanAction::ReportFailure(0));
    assert_eq!(scan.step(ScanEvent::Taken), ScanAction::Enqueue(1));
    assert_eq!(scan.step(ScanEvent::Enqueued), ScanAction::StartClock);
    assert_eq!(scan.step(ScanEvent::ClockStarted), ScanAction::Wait);
    assert_eq!(scan.step(ScanEvent::NoReply), ScanAction::Wait);
    assert_eq!(
        scan.step(ScanEvent::Expired),
        ScanAction::Fail("group offset scan timed out with 1 requests pending".to_string())
    );
    let (mut refused, _) = GroupScan::new(1);
    refused.step(ScanEvent::Enqueued);
    refused.step(ScanEvent::ClockStarted);
    assert_eq!(refused.step(ScanEvent::Reply), ScanAction::Report);
    assert_eq!(refused.step(ScanEvent::Refused), ScanAction::Finish);
    let (mut bad, _) = GroupScan::new(1);
    bad.step(ScanEvent::Enqueued);
    bad.step(ScanEvent::ClockStarted);
    assert_eq!(bad.step(ScanEvent::BadReply), ScanAction::Finish);
    assert_eq!(GroupScan::new(0).1, ScanAction::Finish);
}

fn jks_with_one_cert(der: &[u8]) -> Vec<u8> {
    let mut b = Vec::new();
    b.extend_from_slice(&0xFEED_FEEDu32.to_be_bytes());
    b.extend_from_slice(&2u32.to_be_bytes());
    b.extend_from_slice(&1u32.to_be_bytes());
    b.extend_from_slice(&2u32.to_be_bytes());
    b.extend_from_slice(&2u16.to_be_bytes());
    b.extend_from_slice(b"ca");
    b.extend_from_slice(&[0u8; 8]);
    b.extend_from_slice(&5u16.to_be_bytes());
    b.extend_from_slice(b"X.509");
    b.extend_from_slice(&(der.len() as u32).to_be_bytes());
    b.extend_from_slice(der);
    b.extend_from_slice(&[0u8; 20]);
    b
}

#[test]
fn a_key_store_becomes_a_certificate_file_of_the_connection() {
    let text = "bootstrap.servers=b:1\nsecurity.protocol=SASL_SSL\nsasl.mechanism=SCRAM-SHA-512\nsasl.jaas.config=x required username=\"u\" password=\"p\";\nssl.truststore.type=JKS\nssl.truststore.location=/tmp/trust.jks\n";
    let imported = import_properties(text, &import_name(Some("staging")), "id".into()).unwrap();
    assert_eq!(trust_step(&imported), TrustStep::Convert("/tmp/trust.jks".into()));
    let pem = convert_jks(&jks_with_one_cert(&[0x30, 0x03, 0x02, 0x01, 0x05]), "/tmp/trust.jks").unwrap();
    assert!(pem.starts_with("-----BEGIN CERTIFICATE-----\nMAMCAQU=\n-----END CERTIFICATE-----"));
    let path = pem_path("/tmp/ca", &imported.profile.name);
    assert_eq!(path, "/tmp/ca/staging.pem");
    let placed = with_ca_location(imported, path);
    assert_eq!(placed.profile.name, "staging");
    assert_eq!(placed.profile.ca_location.as_deref(), Some("/tmp/ca/staging.pem"));
    assert_eq!(placed.password.as_deref(), Some("p"));
}

#[test]
fn a_key_store_that_cannot_be_used_says_why() {
    assert!(convert_jks(&[1, 2, 3], "/tmp/x.jks").is_err());
    let mut empty = Vec::new();
    empty.extend_from_slice(&0xFEED_FEEDu32.to_be_bytes());
    empty.extend_from_slice(&2u32.to_be_bytes());
    empty.extend_from_slice(&0u32.to_be_bytes());
    empty.extend_from_slice(&[0u8; 20]);
    assert_eq!(
        convert_jks(&empty, "/tmp/x.jks").unwrap_err(),
        "truststore /tmp/x.jks has no trusted certificates"
    );
}

#[test]
fn other_trust_stores_are_checked_or_refused() {
    let plain = import_properties("bootstrap.servers=b:1\n", "x", "id".into()).unwrap();
    assert_eq!(trust_step(&plain), TrustStep::Ready);
    let pem = import_properties(
        "bootstrap.servers=b:1\nsecurity.protocol=SASL_SSL\nsasl.mechanism=PLAIN\nsasl.username=u\nsasl.password=p\nssl.ca.location=/etc/ca.pem\n",
        "x",
        "id".into(),
    )
    .unwrap();
    assert_eq!(trust_step(&pem), TrustStep::CheckExists("/etc/ca.pem".into()));
    let pkcs = import_properties(
        "bootstrap.servers=b:1\nsecurity.protocol=SASL_SSL\nsasl.mechanism=PLAIN\nsasl.username=u\nsasl.password=p\nssl.truststore.type=PKCS12\nssl.truststore.location=/etc/t.p12\n",
        "x",
        "id".into(),
    )
    .unwrap();
    assert_eq!(
        trust_step(&pkcs),
        TrustStep::Refuse("truststore /etc/t.p12 is PKCS12; convert it to PEM and set ssl.ca.location".into())
    );
    assert_eq!(missing_ca_message("/x"), "CA file /x does not exist");
}

#[test]
fn file_names_hold_letters_digits_and_underscores() {
    assert_eq!(file_stem_for("prod eu/1"), "prod_eu_1");
    assert_eq!(file_stem_for("../x"), "___x");
    assert_eq!(file_stem_for("a-b_c9"), "a-b_c9");
    assert_eq!(file_stem_for(""), "connection");
    assert_eq!(import_name(None), "imported");
}

#[test]
fn a_check_counts_what_it_found() {
    let cluster = fetch_cluster(vec![BrokerInfo { id: 1, host: "a".into(), port: 1 }], vec![topic("a", &[0]), topic("b", &[0])]);
    let report = check_connection(&cluster, &Vec::new(), Duration::from_millis(7));
    assert_eq!((report.brokers, report.topics, report.groups), (1, 2, 0));
    assert_eq!(report.elapsed, Duration::from_millis(7));
}
