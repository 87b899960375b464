use kafkamitter::kafka::config::{
    base_config, group_reader_config, producer_config, viewer_consumer_config, viewer_group_id,
};
use kafkamitter::kafka::service::{needs_system_roots, KafkaService};
use kafkamitter::model::profile::{ConnectionProfile, SaslMechanism, Security};

fn plaintext_profile() -> ConnectionProfile {
    ConnectionProfile {
        id: "p".into(),
        name: "local".into(),
        bootstrap_servers: "localhost:9092".into(),
        security: Security::Plaintext,
        ca_location: None,
        password: None,
    }
}

fn sasl_profile(mechanism: SaslMechanism, ca_location: Option<&str>) -> ConnectionProfile {
    ConnectionProfile {
        id: "s".into(),
        name: "cloud".into(),
        bootstrap_servers: "b1:9094,b2:9094".into(),
        security: Security::SaslSsl {
            mechanism,
            username: "alice".into(),
        },
        ca_location: ca_location.map(String::from),
        password: None,
    }
}

#[test]
fn plaintext_sets_only_the_basics() {
    let cfg = base_config(&plaintext_profile(), None, Some("PEM"));
    assert_eq!(cfg.get("bootstrap.servers"), Some("localhost:9092"));
    assert_eq!(cfg.get("security.protocol"), Some("plaintext"));
    assert_eq!(cfg.get("client.id"), Some("kafkamitter"));
    assert_eq!(cfg.get("sasl.mechanism"), None);
    assert_eq!(cfg.get("ssl.ca.pem"), None);
}

#[test]
fn sasl_ssl_sets_mechanism_credentials_and_system_roots() {
    let cfg = base_config(&sasl_profile(SaslMechanism::Plain, None), Some("secret"), Some("PEM"));
    assert_eq!(cfg.get("security.protocol"), Some("sasl_ssl"));
    assert_eq!(cfg.get("sasl.mechanism"), Some("PLAIN"));
    assert_eq!(cfg.get("sasl.username"), Some("alice"));
    assert_eq!(cfg.get("sasl.password"), Some("secret"));
    assert_eq!(cfg.get("ssl.ca.pem"), Some("PEM"));
    assert_eq!(cfg.get("ssl.ca.location"), None);
}

#[test]
fn scram_mechanisms_map_to_kafka_names() {
    let cfg = base_config(&sasl_profile(SaslMechanism::ScramSha256, None), None, None);
    assert_eq!(cfg.get("sasl.mechanism"), Some("SCRAM-SHA-256"));
    assert_eq!(cfg.get("sasl.password"), Some(""));
    let cfg = base_config(&sasl_profile(SaslMechanism::ScramSha512, None), None, None);
    assert_eq!(cfg.get("sasl.mechanism"), Some("SCRAM-SHA-512"));
}

#[test]
fn explicit_ca_location_wins_over_system_roots() {
    let cfg = base_config(&sasl_profile(SaslMechanism::Plain, Some("/etc/ca.pem")), None, Some("PEM"));
    assert_eq!(cfg.get("ssl.ca.location"), Some("/etc/ca.pem"));
    assert_eq!(cfg.get("ssl.ca.pem"), None);
}

#[test]
fn viewer_consumer_never_commits() {
    let cfg = viewer_consumer_config(&base_config(&plaintext_profile(), None, None), 7, 0x1f);
    assert!(cfg.get("group.id").unwrap().starts_with("kafkamitter-"));
    assert_eq!(cfg.get("enable.auto.commit"), Some("false"));
    assert_eq!(cfg.get("enable.auto.offset.store"), Some("false"));
    assert_eq!(cfg.get("enable.partition.eof"), Some("true"));
    assert_eq!(cfg.get("queued.max.messages.kbytes"), Some("4096"));
    assert_eq!(cfg.get("queued.min.messages"), Some("5000"));
    assert_eq!(cfg.get("security.protocol"), Some("plaintext"));
    assert_eq!(cfg.get("group.id"), Some("kafkamitter-7-1f"));
    assert_eq!(cfg.get("auto.offset.reset"), Some("earliest"));
    assert_eq!(cfg.get("fetch.wait.max.ms"), Some("100"));
}

#[test]
fn group_reader_uses_the_target_group() {
    let cfg = group_reader_config(&base_config(&plaintext_profile(), None, None), "billing");
    assert_eq!(cfg.get("group.id"), Some("billing"));
    assert_eq!(cfg.get("enable.auto.commit"), Some("false"));
}

#[test]
fn a_viewer_leaves_the_base_as_it_is() {
    let base = base_config(&plaintext_profile(), None, None);
    let viewer = viewer_consumer_config(&base, 1, 2);
    assert_eq!(base.get("group.id"), None);
    assert_eq!(viewer.get("bootstrap.servers"), base.get("bootstrap.servers"));
    assert_eq!(base.get("socket.keepalive.enable"), Some("true"));
    assert_eq!(base.get("log.connection.close"), Some("false"));
}

#[test]
fn a_producer_waits_for_all_replicas() {
    let cfg = producer_config(&base_config(&plaintext_profile(), None, None));
    assert_eq!(cfg.get("acks"), Some("all"));
    assert_eq!(cfg.get("message.timeout.ms"), Some("10000"));
}

#[test]
fn viewer_groups_name_the_process_and_the_time() {
    assert_eq!(viewer_group_id(4242, 0xdead_beef), "kafkamitter-4242-deadbeef");
    assert_eq!(viewer_group_id(0, 0), "kafkamitter-0-0");
}

#[test]
fn system_roots_count_for_encrypted_connections_without_a_file() {
    assert!(!needs_system_roots(&plaintext_profile()));
    assert!(needs_system_roots(&sasl_profile(SaslMechanism::Plain, None)));
    assert!(!needs_system_roots(&sasl_profile(SaslMechanism::Plain, Some("/ca.pem"))));
}

#[test]
fn each_connection_has_one_worker() {
    let mut service: KafkaService<u32> = KafkaService::new();
    assert!(!service.is_connected("p"));
    assert_eq!(service.worker(&plaintext_profile(), 1), None);
    assert_eq!(service.worker(&plaintext_profile(), 2), Some(2));
    assert_eq!(service.existing("p"), Some(&1));
    assert!(service.is_connected("p"));
    assert_eq!(service.disconnect("p"), Some(1));
    assert_eq!(service.disconnect("p"), None);
    assert_eq!(service.existing("p"), None);
}
