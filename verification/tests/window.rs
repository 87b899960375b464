use std::sync::Arc;

use kafkamitter::app::{
    as_passing, delete_question, no_more_tabs, passing_profile, show_in_views, ConnState, Content, Dot, KafkamitterApp,
    LoadedCluster, MainTab, Step, Sync, MAX_TABS,
};
use kafkamitter::cli::{check_headline, check_line, command, failure_line, import_into, imported_line, Command, USAGE};
use kafkamitter::kafka::import::CheckReport;
use kafkamitter::kafka::metadata::{BrokerInfo, ClusterInfo, PartitionInfo, TopicInfo};
use kafkamitter::model::profile::{ConnectionProfile, SaslMechanism, Security};
use kafkamitter::model::settings::Settings;
use kafkamitter::ui::consumers::ConsumersView;
use kafkamitter::ui::messages::MessagesView;
use kafkamitter::ui::produce::ProduceView;

fn profile(id: &str, name: &str) -> ConnectionProfile {
    ConnectionProfile {
        id: id.into(),
        name: name.into(),
        bootstrap_servers: format!("{id}:9092"),
        security: Security::Plaintext,
        ca_location: None,
        password: None,
    }
}

fn topic(name: &str) -> TopicInfo {
    TopicInfo {
        name: name.into(),
        partitions: vec![PartitionInfo { id: 0, leader: 1, replicas: vec![1, 2], isr: vec![1] }],
    }
}

fn cluster(names: &[&str]) -> LoadedCluster {
    LoadedCluster::new(ClusterInfo {
        brokers: vec![BrokerInfo { id: 1, host: "h".into(), port: 9092 }],
        topics: names.iter().map(|n| topic(n)).collect(),
    })
}

fn app() -> KafkamitterApp<u8> {
    let mut app = KafkamitterApp::new(0u8);
    let profiles = vec![profile("a", "alpha"), profile("b", "beta"), profile("c", "gamma")];
    assert_eq!(app.finish_loading(Ok(profiles), Settings::default()), None);
    app
}

fn connected(id: &str, names: &[&str]) -> KafkamitterApp<u8> {
    let mut app = app();
    app.connect(id.to_string());
    app.on_cluster_loaded(id.to_string(), Ok(cluster(names)));
    app
}

fn shown_topic(app: &KafkamitterApp<u8>) -> Option<String> {
    app.session().topic.as_ref().map(|t| t.name.clone())
}

// ---- tabs ----

#[test]
fn a_window_holds_a_limited_number_of_tabs() {
    let mut app = app();
    for n in 1..MAX_TABS {
        assert!(app.on_new_tab(n as u8));
    }
    assert!(app.tabs_are_full());
    assert!(!app.on_new_tab(99));
    assert!(app.duplicate_session(0, 99).is_none());
    assert_eq!(app.session_tabs().len(), MAX_TABS);
    assert_eq!(no_more_tabs(), "A window holds at most 13 tabs");
    app.on_close_all_tabs(7);
    assert_eq!(app.session_tabs().len(), 1);
    assert_eq!(app.session().views, 7);
}

#[test]
fn closing_a_tab_keeps_the_shown_one() {
    let mut app = app();
    app.on_new_tab(1);
    app.on_new_tab(2);
    let shown = app.session().id;
    app.close_session(0, 9);
    assert_eq!(app.session().id, shown);
    app.close_session(9, 9);
    assert_eq!(app.session_tabs().len(), 2);
    app.close_session(1, 9);
    assert_eq!(app.session().views, 1);
    app.close_session(0, 9);
    assert_eq!(app.session().views, 9);
    assert_eq!(app.session_tabs().len(), 1);
    let keys: Vec<u64> = app.session_tabs().iter().map(|t| t.key).collect();
    assert_eq!(keys, [3]);
}

#[test]
fn another_tab_is_shown_without_a_change() {
    let mut app = connected("a", &["orders", "users"]);
    app.select_topic_by_name("orders");
    app.on_new_tab(1);
    assert_eq!(shown_topic(&app), None);
    assert_eq!(app.topics.items_count(), 0);
    assert!(app.select_session(0));
    assert!(!app.select_session(0));
    assert!(!app.select_session(5));
    assert_eq!(shown_topic(&app).as_deref(), Some("orders"));
    assert_eq!(app.topics.items_count(), 2);
    assert_eq!(app.topics.selected, Some(0));
    let labels: Vec<String> = app.session_tabs().into_iter().map(|t| t.label).collect();
    assert_eq!(labels, ["orders", "New tab"]);
}

#[test]
fn a_duplicate_is_on_what_its_source_is_on() {
    let mut app = connected("a", &["orders"]);
    app.select_topic_by_name("orders");
    app.set_tab(MainTab::Produce);
    let sync = app.duplicate_session(0, 1).unwrap();
    assert_eq!(sync.session, 1);
    assert_eq!(sync.worker, Some(0));
    assert_eq!(sync.topic.unwrap().name, "orders");
    assert_eq!(app.session().tab, MainTab::Produce);
    assert_eq!(app.session().connection.as_deref(), Some("a"));
    assert!(app.duplicate_session(9, 1).is_none());
}

// ---- connections ----

#[test]
fn a_connection_is_asked_through_its_own_worker() {
    let mut app = app();
    assert!(matches!(app.connect("nowhere".into()), Step::Stay));
    match app.connect("a".into()) {
        Step::Connect(order, sync) => {
            assert_eq!(order.id, "a");
            assert!(order.fresh);
            assert_eq!(order.worker, 0);
            assert_eq!(order.profile.name, "alpha");
            assert_eq!(order.password, None);
            assert_eq!(sync.worker, Some(0));
            assert!(sync.topic.is_none());
        }
        _ => panic!("the cluster is asked"),
    }
    match app.connect("a".into()) {
        Step::Connect(order, _) => assert!(!order.fresh && order.worker == 0),
        _ => panic!("the cluster is asked again"),
    }
    match app.reconnect("a".into()) {
        Step::Connect(order, _) => assert!(order.fresh && order.worker == 1),
        _ => panic!("a new worker is started"),
    }
}

#[test]
fn a_switch_returns_to_what_was_shown() {
    let mut app = connected("a", &["orders", "users"]);
    app.connect("b".into());
    app.on_cluster_loaded("b".into(), Ok(cluster(&["logs"])));
    assert!(matches!(app.activate_connection("a".into()), Step::Show(_)));
    app.select_topic_by_name("users");
    app.set_tab(MainTab::Consumers);
    assert!(matches!(app.activate_connection("b".into()), Step::Show(_)));
    assert_eq!(shown_topic(&app), None);
    app.set_tab(MainTab::Messages);
    assert!(matches!(app.activate_connection("a".into()), Step::Show(_)));
    assert_eq!(shown_topic(&app).as_deref(), Some("users"));
    assert_eq!(app.session().tab, MainTab::Consumers);
    assert!(matches!(app.activate_connection("a".into()), Step::Stay));
}

#[test]
fn connections_are_switched_round_and_round() {
    let mut app = app();
    assert_eq!(app.connection_by_offset(1).as_deref(), Some("a"));
    assert_eq!(app.connection_by_offset(-1).as_deref(), Some("b"));
    app.connect("c".into());
    assert_eq!(app.connection_by_offset(1).as_deref(), Some("a"));
    assert_eq!(app.connection_by_offset(-1).as_deref(), Some("b"));
    assert_eq!(app.connection_by_offset(-7).as_deref(), Some("b"));
    app.switch_connection_by_offset(1);
    assert_eq!(app.session().connection.as_deref(), Some("a"));
    app.switch_connection_by_offset(-1);
    assert_eq!(app.session().connection.as_deref(), Some("c"));
    assert!(matches!(app.on_switch_connection(9), Step::Stay));
    app.on_switch_connection(1);
    assert_eq!(app.session().connection.as_deref(), Some("b"));
    let mut empty: KafkamitterApp<u8> = KafkamitterApp::new(0);
    assert!(matches!(empty.switch_connection_by_offset(1), Step::Stay));
}

#[test]
fn a_connection_that_is_being_reached_is_only_shown() {
    let mut app = app();
    app.connect("a".into());
    app.on_new_tab(1);
    assert!(matches!(app.activate_connection("a".into()), Step::Redraw));
    assert_eq!(app.session().connection.as_deref(), Some("a"));
    assert!(matches!(app.session_content(), Content::Hint("Connecting\u{2026}")));
}

#[test]
fn a_failed_connection_can_be_tried_again() {
    let mut app = app();
    app.connect("a".into());
    assert!(app.on_cluster_loaded("a".into(), Err("no route".into())).is_none());
    assert!(app.active_worker().is_err());
    match app.session_content() {
        Content::Failed { id, title, error } => {
            assert_eq!(id, "a");
            assert_eq!(title, "Cannot reach alpha");
            assert_eq!(error, "no route");
        }
        _ => panic!("the failure is shown"),
    }
    let rows = app.connection_rows();
    assert_eq!(rows[0].dot, Dot::Red);
    assert_eq!(rows[0].hint, "no route");
    assert!(rows[0].retry && rows[0].active);
    assert_eq!(rows[1].dot, Dot::Muted);
    assert_eq!(rows[1].hint, "b:9092");
    assert!(!rows[1].retry && !rows[1].active);
    match app.activate_connection("a".into()) {
        Step::Stay => {}
        _ => panic!("it is shown already"),
    }
    assert!(matches!(app.reconnect("a".into()), Step::Connect(_, _)));
}

#[test]
fn a_reached_cluster_is_summed_up() {
    let app = connected("a", &["orders", "users"]);
    assert_eq!(app.cluster_summary().as_deref(), Some("alpha \u{b7} 1 brokers"));
    let rows = app.connection_rows();
    assert_eq!(rows[0].hint, "1 brokers, 2 topics");
    assert_eq!(rows[0].dot, Dot::Green);
    assert!(matches!(app.session_content(), Content::Hint("Select a topic")));
    assert_eq!(self::app().cluster_summary(), None);
}

#[test]
fn hints_lead_to_the_first_connection() {
    let empty: KafkamitterApp<u8> = KafkamitterApp::new(0);
    assert!(matches!(empty.session_content(), Content::Hint("Add a connection to start")));
    assert!(matches!(app().session_content(), Content::Hint("Select a connection from the left")));
}

#[test]
fn a_topic_is_shown_with_its_partitions() {
    let mut app = connected("a", &["orders"]);
    let sync = app.on_topic_selected(0);
    assert_eq!(sync.topic.unwrap().name, "orders");
    match app.session_content() {
        Content::Topic { title, detail, tab } => {
            assert_eq!(title, "orders");
            assert_eq!(detail, "1 partitions, replication 2");
            assert_eq!(tab, MainTab::Messages);
        }
        _ => panic!("the topic is shown"),
    }
    app.set_tab(MainTab::Produce);
    assert!(app.show_messages());
    assert_eq!(app.session().tab, MainTab::Messages);
    app.on_topic_selected(9);
    assert!(!app.show_messages());
    let labels: Vec<&str> = MainTab::ALL.iter().map(|t| t.label()).collect();
    assert_eq!(labels, ["Messages", "Produce", "Consumers"]);
    assert_eq!(MainTab::at(MainTab::Produce.place()), MainTab::Produce);
    assert_eq!(MainTab::at(8), MainTab::Consumers);
    assert_eq!(MainTab::default(), MainTab::Messages);
}

#[test]
fn a_saved_connection_is_given_up_and_loses_an_empty_password() {
    let mut app = connected("a", &["orders"]);
    app.select_topic_by_name("orders");
    let sync = app.upsert_profile(profile("a", "renamed"), Some(String::new())).unwrap();
    assert_eq!(sync.worker, None);
    assert!(sync.topic.is_none());
    assert_eq!(app.profiles[0].name, "renamed");
    assert_eq!(app.profiles[0].password, None);
    assert_eq!(app.session().connection, None);
    assert!(app.upsert_profile(profile("d", "delta"), Some("pw".into())).is_none());
    assert_eq!(app.profiles[3].password.as_deref(), Some("pw"));
    assert_eq!(app.edit_profile("d").unwrap().1.as_deref(), Some("pw"));
    assert!(app.edit_profile("zz").is_none());
    app.import_profile(profile("x", "beta"), None);
    assert_eq!(app.profiles.len(), 4);
    assert_eq!(app.id_by_name("beta").as_deref(), Some("b"));
    assert_eq!(app.profiles[1].bootstrap_servers, "x:9092");
}

#[test]
fn a_removed_connection_is_gone() {
    let mut app = connected("a", &["orders"]);
    assert!(app.remove_profile("a").is_some());
    assert_eq!(app.profiles.len(), 2);
    assert!(app.session().connection.is_none());
    assert!(!app.views.contains_key("a"));
    assert!(app.states.get("a").is_none());
    assert!(app.remove_profile("b").is_none());
}

#[test]
fn a_refresh_keeps_the_topic() {
    let mut app = connected("a", &["orders", "users"]);
    app.select_topic_by_name("users");
    assert!(matches!(app.refresh_active(), Step::Connect(_, _)));
    assert_eq!(shown_topic(&app), None);
    let sync = app.on_cluster_loaded("a".into(), Ok(cluster(&["orders", "users", "zeta"]))).unwrap();
    assert_eq!(sync.topic.unwrap().name, "users");
    assert!(app.reselect_after_refresh.is_none());
    let mut idle = self::app();
    assert!(matches!(idle.refresh_active(), Step::Stay));
}

#[test]
fn a_created_topic_is_shown_when_the_cluster_answers() {
    let mut app = connected("a", &["orders"]);
    let (said, step) = app.on_topic_created("fresh".into(), Ok(()));
    assert_eq!(said, "Created topic fresh");
    assert!(matches!(step, Step::Connect(_, _)));
    app.on_cluster_loaded("a".into(), Ok(cluster(&["fresh", "orders"])));
    assert_eq!(shown_topic(&app).as_deref(), Some("fresh"));
    let (said, step) = app.on_topic_created("x".into(), Err("denied".into()));
    assert_eq!(said, "Create topic failed: denied");
    assert!(matches!(step, Step::Stay));
}

#[test]
fn a_deleted_topic_is_left() {
    let mut app = connected("a", &["orders"]);
    app.select_topic_by_name("orders");
    let (said, sync, step) = app.on_topic_deleted("orders", Ok(()));
    assert_eq!(said, "Deleted topic orders");
    assert!(sync.unwrap().topic.is_none());
    assert!(matches!(step, Step::Connect(_, _)));
    let (said, sync, step) = app.on_topic_deleted("orders", Err("denied".into()));
    assert_eq!(said, "Delete topic failed: denied");
    assert!(sync.is_none() && matches!(step, Step::Stay));
    assert_eq!(
        delete_question("orders"),
        "Delete topic \"orders\" and all of its messages? This cannot be undone."
    );
    assert_eq!(self::app().active_worker(), Err("Connect to a cluster first".to_string()));
}

#[test]
fn internal_topics_can_be_shown() {
    let mut app = connected("a", &["__offsets", "orders"]);
    assert_eq!(app.topics.items_count(), 1);
    app.toggle_internal_topics();
    assert_eq!(app.topics.items_count(), 2);
}

#[test]
fn a_failed_load_is_said() {
    let mut app: KafkamitterApp<u8> = KafkamitterApp::new(0);
    assert_eq!(
        app.finish_loading(Err("broken file".into()), Settings::default()).as_deref(),
        Some("Cannot read saved connections: broken file")
    );
    app.apply_settings(Settings { max_messages: 5, ..Settings::default() });
    assert_eq!(app.settings.max_messages, 5);
}

#[test]
fn passwords_of_the_keychain_are_adopted() {
    let mut app = app();
    assert!(app.awaiting_passwords().is_empty());
    app.profiles[1].security = Security::SaslSsl { mechanism: SaslMechanism::Plain, username: "u".into() };
    assert_eq!(app.awaiting_passwords(), ["b"]);
    assert_eq!(app.adopt_passwords(&Vec::new()), None);
    let found = vec![("b".to_string(), "pw".to_string()), ("gone".to_string(), "x".to_string())];
    assert_eq!(
        app.adopt_passwords(&found).as_deref(),
        Some("Moved 2 password(s) from the Keychain into the connections file")
    );
    assert_eq!(app.profiles[1].password.as_deref(), Some("pw"));
    assert!(app.awaiting_passwords().is_empty());
}

#[test]
fn connections_of_the_environment_come_and_go() {
    let mut app = app();
    match app.add_and_connect(passing_profile("localhost:1".into())) {
        Step::Connect(order, _) => assert_eq!(order.id, "dev"),
        _ => panic!("it is connected"),
    }
    let passing = as_passing(profile("x", "staging"));
    assert_eq!(passing.id, "dev-staging");
    match app.import_and_connect(passing, Some("secret".into())) {
        Step::Connect(order, _) => assert_eq!(order.password.as_deref(), Some("secret")),
        _ => panic!("it is connected"),
    }
    assert_eq!(app.profiles.len(), 5);
    app.import_and_connect(as_passing(profile("y", "staging")), None);
    assert_eq!(app.profiles.len(), 5);
}

#[test]
fn views_follow_the_tab() {
    let mut messages = MessagesView::new();
    let mut produce = ProduceView::new();
    let mut consumers = ConsumersView::new();
    let sync = Sync { session: 0, worker: Some(3), topic: Some(Arc::new(topic("orders"))) };
    let shown = show_in_views(&mut messages, &mut produce, &mut consumers, &sync, &Settings::default());
    assert!(shown.changed && shown.start);
    assert_eq!(shown.targets.unwrap(), ["Auto", "Partition 0"]);
    assert!(consumers.needs_refresh);
    let again = show_in_views(&mut messages, &mut produce, &mut consumers, &sync, &Settings::default());
    assert!(!again.changed && !again.start && again.targets.is_none());
    let quiet = Settings { auto_consume_on_select: false, ..Settings::default() };
    let other = Sync { session: 0, worker: Some(4), topic: Some(Arc::new(topic("orders"))) };
    let shown = show_in_views(&mut messages, &mut produce, &mut consumers, &other, &quiet);
    assert!(shown.changed && !shown.start);
    assert_eq!(messages.worker, Some(4));
}

#[test]
fn a_loaded_cluster_shares_its_topics() {
    let loaded = cluster(&["a", "b"]);
    assert_eq!(loaded.topics[1].name, "b");
    assert_eq!(loaded.brokers.len(), 1);
    match ConnState::Connected(loaded) {
        ConnState::Connected(c) => assert_eq!(c.topics.len(), 2),
        _ => unreachable!(),
    }
}

// ---- the command line ----

fn args(list: &[&str]) -> Vec<String> {
    list.iter().map(|a| a.to_string()).collect()
}

#[test]
fn arguments_name_a_command() {
    assert!(matches!(command(&args(&["--check", "f"])), Command::Check(path) if path == "f"));
    assert!(matches!(command(&args(&["--import", "g"])), Command::Import(path) if path == "g"));
    assert!(matches!(command(&args(&["--help"])), Command::Help));
    assert!(matches!(command(&args(&["-h"])), Command::Help));
    assert!(matches!(command(&args(&[])), Command::Window));
    assert!(matches!(command(&args(&["--check"])), Command::Window));
    assert!(USAGE.starts_with("usage: kafkamitter"));
}

#[test]
fn a_check_is_announced_and_reported() {
    assert_eq!(check_headline(&profile("a", "alpha")), "checking alpha (a:9092, PLAINTEXT)");
    let mut cloud = profile("a", "alpha");
    cloud.security = Security::SaslSsl { mechanism: SaslMechanism::ScramSha256, username: "bob".into() };
    assert_eq!(check_headline(&cloud), "checking alpha (a:9092, SASL_SSL SCRAM-SHA-256 as bob)");
    let report = CheckReport { brokers: 3, topics: 7, groups: 2, elapsed: std::time::Duration::from_millis(41) };
    assert_eq!(check_line(&report, "41"), "ok: 3 brokers, 7 topics, 2 consumer groups in 41 ms");
    assert_eq!(failure_line("import failed", "no file"), "import failed: no file");
    assert_eq!(imported_line("x", "/c.json"), "imported x into /c.json");
}

#[test]
fn an_import_replaces_the_connection_of_its_name() {
    let mut profiles = vec![profile("a", "alpha"), profile("b", "beta")];
    import_into(&mut profiles, profile("new", "beta"));
    assert_eq!(profiles.len(), 2);
    assert_eq!(profiles[1].id, "b");
    assert_eq!(profiles[1].bootstrap_servers, "new:9092");
    import_into(&mut profiles, profile("new", "delta"));
    assert_eq!(profiles[2].id, "new");
}
