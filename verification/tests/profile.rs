use std::collections::HashSet;

use kafkamitter::model::keychain::{delete_password, get_password, KeychainError, ERR_SEC_ITEM_NOT_FOUND};
use kafkamitter::model::profile::{
    adopt_id, app_support_dir, ca_dir, find_id, find_name, new_profile_id, persisted, profiles_path, put_profile,
    remove_id, ConnectionProfile, ProfileIds, SaslMechanism, Security,
};
use kafkamitter::model::settings::{load_settings, settings_path, Settings};

fn profile(id: &str, name: &str) -> ConnectionProfile {
    ConnectionProfile {
        id: id.into(),
        name: name.into(),
        bootstrap_servers: "localhost:9092".into(),
        security: Security::Plaintext,
        ca_location: None,
        password: None,
    }
}

#[test]
fn profile_ids_are_unique_even_inside_one_clock_tick() {
    let ids: HashSet<String> = (0..1000).map(|sequence| new_profile_id(1_700_000_000, 42, sequence)).collect();
    assert_eq!(ids.len(), 1000, "every generated id must differ");
}

#[test]
fn a_source_of_ids_hands_out_each_once() {
    let mut ids = ProfileIds::new();
    let made: HashSet<String> = (0..1000).map(|_| ids.next_id(1_700_000_000, 42)).collect();
    assert_eq!(made.len(), 1000);
    assert!(made.contains("6553f100-2a-0") && made.contains("6553f100-2a-3e7"));
}

#[test]
fn profile_ids_differ_by_the_counter_alone() {
    assert_ne!(new_profile_id(0x1, 0x2, 0x34), new_profile_id(0x1, 0x23, 0x4));
    assert_ne!(new_profile_id(5, 42, 1), new_profile_id(6, 42, 2));
}

#[test]
fn a_profile_id_holds_the_time_the_process_and_the_counter() {
    assert_eq!(new_profile_id(0x1234_abcd, 0xff, 10), "1234abcd-ff-a");
    assert_eq!(new_profile_id(0, 0, 0), "0-0-0");
}

#[test]
fn files_lie_in_the_application_support_directory() {
    assert_eq!(app_support_dir(Some("/Users/a")), "/Users/a/Library/Application Support/kafkamitter");
    assert_eq!(app_support_dir(None), "./Library/Application Support/kafkamitter");
    assert_eq!(
        profiles_path(Some("/Users/a")),
        "/Users/a/Library/Application Support/kafkamitter/connections.json"
    );
    assert_eq!(ca_dir(Some("/Users/a/")), "/Users/a/Library/Application Support/kafkamitter/ca");
    assert_eq!(
        settings_path(Some("/Users/a")),
        "/Users/a/Library/Application Support/kafkamitter/settings.json"
    );
}

#[test]
fn mechanisms_have_the_names_of_kafka() {
    let names: Vec<&str> = SaslMechanism::ALL.iter().map(|m| m.kafka_name()).collect();
    assert_eq!(names, ["PLAIN", "SCRAM-SHA-256", "SCRAM-SHA-512"]);
    assert_eq!(SaslMechanism::ScramSha256.label(), "SCRAM-SHA-256");
}

#[test]
fn only_encrypted_connections_need_a_password() {
    let mut p = profile("a", "a");
    assert!(!p.needs_password());
    p.security = Security::SaslSsl { mechanism: SaslMechanism::Plain, username: "u".into() };
    assert!(p.needs_password());
}

#[test]
fn profiles_are_compared_by_all_their_parts() {
    let a = profile("a", "a");
    assert!(a.same_as(&a.clone()));
    let mut b = a.clone();
    b.password = Some("x".into());
    assert!(!a.same_as(&b));
    let mut c = a.clone();
    c.security = Security::SaslSsl { mechanism: SaslMechanism::Plain, username: "u".into() };
    assert!(!a.same_as(&c));
}

#[test]
fn a_saved_profile_takes_the_place_of_the_one_with_its_id() {
    let mut profiles = vec![profile("a", "one"), profile("b", "two")];
    put_profile(&mut profiles, profile("b", "three"));
    assert_eq!(profiles, vec![profile("a", "one"), profile("b", "three")]);
    put_profile(&mut profiles, profile("c", "four"));
    assert_eq!(find_id(&profiles, "c"), Some(2));
    assert_eq!(find_name(&profiles, "three"), Some(1));
    assert_eq!(find_id(&profiles, "z"), None);
    assert_eq!(find_name(&profiles, "z"), None);
}

#[test]
fn an_imported_profile_takes_the_id_of_its_name() {
    let profiles = vec![profile("a", "one"), profile("b", "two")];
    assert_eq!(adopt_id(&profiles, profile("x", "two")).id, "b");
    assert_eq!(adopt_id(&profiles, profile("x", "new")).id, "x");
}

#[test]
fn removing_takes_all_profiles_of_an_id() {
    let profiles = vec![profile("a", "one"), profile("b", "two"), profile("a", "three")];
    assert_eq!(remove_id(&profiles, "a"), vec![profile("b", "two")]);
    assert_eq!(remove_id(&profiles, "z"), profiles);
}

#[test]
fn connections_of_the_environment_are_not_kept() {
    let profiles = vec![profile("dev", "dev"), profile("dev-x", "x"), profile("device", "y"), profile("a", "z")];
    assert_eq!(persisted(&profiles), vec![profile("device", "y"), profile("a", "z")]);
}

#[test]
fn a_missing_keychain_item_is_no_error() {
    assert_eq!(get_password(Err(ERR_SEC_ITEM_NOT_FOUND)), Ok(None));
    assert_eq!(get_password(Ok(b"secret".to_vec())), Ok(Some("secret".to_string())));
    assert_eq!(get_password(Ok(vec![0xff])), Err(KeychainError::NotUtf8));
    assert_eq!(get_password(Err(-1)), Err(KeychainError::Code(-1)));
    assert_eq!(delete_password(Ok(())), Ok(()));
    assert_eq!(delete_password(Err(ERR_SEC_ITEM_NOT_FOUND)), Ok(()));
    assert_eq!(delete_password(Err(-5)), Err(KeychainError::Code(-5)));
}

#[test]
fn settings_fall_back_to_the_defaults() {
    let defaults = Settings::default();
    assert_eq!(load_settings(None), defaults);
    assert_eq!(defaults.newest_per_partition, 200);
    assert_eq!(defaults.max_messages, 10_000);
    assert_eq!(defaults.max_bytes(), 256 * 1024 * 1024);
    let custom = Settings { newest_per_partition: 50, max_megabytes: 64, ..defaults };
    assert_eq!(load_settings(Some(custom)), custom);
    assert_eq!(Settings { max_megabytes: 0, ..defaults }.max_bytes(), 1024 * 1024);
}
