use kafkamitter::model::profile::{ConnectionProfile, SaslMechanism, Security};
use kafkamitter::ui::connections::{form_title, save_report, ConnectionForm, SECURITY_OPTIONS};

fn cloud() -> ConnectionProfile {
    ConnectionProfile {
        id: "c".into(),
        name: "cloud".into(),
        bootstrap_servers: "b1:9094".into(),
        security: Security::SaslSsl { mechanism: SaslMechanism::ScramSha512, username: "alice".into() },
        ca_location: Some("/etc/ca.pem".into()),
        password: Some("secret".into()),
    }
}

#[test]
fn a_form_that_is_not_changed_gives_the_connection_back() {
    let profile = cloud();
    let form = ConnectionForm::new(Some(&profile), Some("secret"));
    assert!(form.uses_sasl());
    assert_eq!(form.mechanism, Some(2));
    let (built, password) = form.build("fresh".into()).unwrap();
    assert_eq!(built, profile);
    assert_eq!(password.as_deref(), Some("secret"));
}

#[test]
fn a_new_connection_takes_the_fresh_id_and_the_name_of_its_servers() {
    let mut form = ConnectionForm::new(None, None);
    form.servers = "  localhost:9092 ".into();
    let (built, password) = form.build("fresh".into()).unwrap();
    assert_eq!(built.id, "fresh");
    assert_eq!(built.name, "localhost:9092");
    assert_eq!(built.bootstrap_servers, "localhost:9092");
    assert_eq!(built.security, Security::Plaintext);
    assert_eq!(built.ca_location, None);
    assert_eq!(built.password, None);
    assert_eq!(password, None);
}

#[test]
fn a_connection_can_be_renamed() {
    let mut form = ConnectionForm::new(Some(&cloud()), None);
    form.set_name(" other ");
    let (built, _) = form.build("fresh".into()).unwrap();
    assert_eq!(built.name, "other");
    assert_eq!(built.id, "c");
}

#[test]
fn servers_and_a_username_are_asked_for() {
    let mut form = ConnectionForm::new(None, None);
    form.servers = "   ".into();
    assert_eq!(form.build("x".into()).unwrap_err(), "Bootstrap servers must not be empty");
    form.servers = "b:1".into();
    form.security = Some(1);
    form.username = " ".into();
    assert_eq!(form.build("x".into()).unwrap_err(), "Username must not be empty for SASL_SSL");
    form.username = " bob ".into();
    form.mechanism = Some(99);
    let (built, password) = form.build("x".into()).unwrap();
    assert_eq!(
        built.security,
        Security::SaslSsl { mechanism: SaslMechanism::ScramSha512, username: "bob".into() }
    );
    assert_eq!(password.as_deref(), Some(""));
    form.mechanism = None;
    let (built, _) = form.build("x".into()).unwrap();
    assert_eq!(built.security, Security::SaslSsl { mechanism: SaslMechanism::Plain, username: "bob".into() });
}

#[test]
fn the_dialog_says_what_it_does() {
    assert_eq!(SECURITY_OPTIONS, ["PLAINTEXT", "SASL_SSL"]);
    assert_eq!(form_title(true), "Edit connection");
    assert_eq!(form_title(false), "New connection");
    assert_eq!(save_report("cloud", Ok(())), Ok("Saved cloud".to_string()));
    assert_eq!(
        save_report("cloud", Err("disk full".into())),
        Err("Cannot save the connection: disk full".to_string())
    );
}
