use kafkamitter::model::profile::{SaslMechanism, Security};
use kafkamitter::model::properties::{import_properties as import, parse_properties, ImportedConnection, TrustStore};

fn import_properties(text: &str, name: &str) -> Result<ImportedConnection, String> {
    import(text, name, "id-1".to_string())
}

#[test]
fn parses_java_properties_with_comments_and_continuations() {
    let text = "# comment\n! bang\nkey.one=value one\nkey.two: two\nlong=a,\\\n    b\nescaped=x\\=y\n\n";
    let map = parse_properties(text);
    assert_eq!(map.get("key.one").unwrap(), "value one");
    assert_eq!(map.get("key.two").unwrap(), "two");
    assert_eq!(map.get("long").unwrap(), "a,b");
    assert_eq!(map.get("escaped").unwrap(), "x=y");
    assert_eq!(map.len(), 4);
}

#[test]
fn imports_a_scram_sasl_ssl_file_with_a_jks_truststore() {
    let text = "bootstrap.servers=broker:26352\nsecurity.protocol=SASL_SSL\nsasl.mechanism=SCRAM-SHA-512\nsasl.jaas.config=org.apache.kafka.common.security.scram.ScramLoginModule required username=\"alice\" password=\"s3cr;et\";\nssl.truststore.type=JKS\nssl.truststore.location=/tmp/ts.jks\nssl.truststore.password=tspw\n";
    let imported = import_properties(text, "dev").unwrap();
    assert_eq!(imported.profile.name, "dev");
    assert_eq!(imported.profile.bootstrap_servers, "broker:26352");
    assert_eq!(
        imported.profile.security,
        Security::SaslSsl {
            mechanism: SaslMechanism::ScramSha512,
            username: "alice".into()
        }
    );
    assert_eq!(imported.password.as_deref(), Some("s3cr;et"));
    assert_eq!(
        imported.trust_store,
        Some(TrustStore::Jks {
            path: "/tmp/ts.jks".into()
        })
    );
    assert_eq!(imported.profile.ca_location, None);
    assert_eq!(imported.profile.id, "id-1");
}

#[test]
fn imports_plaintext_and_pem_ca() {
    let imported = import_properties("bootstrap.servers=localhost:9092\n", "local").unwrap();
    assert_eq!(imported.profile.security, Security::Plaintext);
    assert_eq!(imported.password, None);
    assert_eq!(imported.trust_store, None);

    let text = "bootstrap.servers=b:1\nsecurity.protocol=SASL_SSL\nsasl.mechanism=PLAIN\nsasl.username=u\nsasl.password=p\nssl.ca.location=/etc/ca.pem\n";
    let imported = import_properties(text, "cloud").unwrap();
    assert_eq!(imported.profile.ca_location.as_deref(), Some("/etc/ca.pem"));
    assert_eq!(imported.trust_store, Some(TrustStore::Pem("/etc/ca.pem".into())));
    assert_eq!(imported.password.as_deref(), Some("p"));
}

#[test]
fn rejects_unsupported_protocols_and_mechanisms() {
    let err = import_properties("bootstrap.servers=b:1\nsecurity.protocol=SASL_PLAINTEXT\nsasl.mechanism=PLAIN\n", "x").unwrap_err();
    assert!(err.contains("SASL_PLAINTEXT"));
    let err = import_properties("bootstrap.servers=b:1\nsecurity.protocol=SASL_SSL\nsasl.mechanism=GSSAPI\n", "x").unwrap_err();
    assert!(err.contains("GSSAPI"));
    let err = import_properties("security.protocol=PLAINTEXT\n", "x").unwrap_err();
    assert!(err.contains("bootstrap.servers"));
}

#[test]
fn a_file_without_all_it_needs_is_refused_with_the_reason() {
    let sasl = "bootstrap.servers=b:1\nsecurity.protocol=sasl_ssl\n";
    assert_eq!(import_properties(sasl, "x").unwrap_err(), "sasl.mechanism is missing");
    assert_eq!(
        import_properties(&format!("{sasl}sasl.mechanisms=plain"), "x").unwrap_err(),
        "SASL username is missing"
    );
    assert_eq!(
        import_properties("bootstrap.servers=\\ \n", "x").unwrap_err(),
        "bootstrap.servers is missing"
    );
}

#[test]
fn jaas_options_may_stand_without_quotes() {
    let head = "bootstrap.servers=b:1\nsecurity.protocol=SASL_SSL\nsasl.mechanism=PLAIN\n";
    let imported = import_properties(&format!("{head}sasl.jaas.config=m required username=bob password=pw;"), "x").unwrap();
    assert_eq!(
        imported.profile.security,
        Security::SaslSsl { mechanism: SaslMechanism::Plain, username: "bob".into() }
    );
    assert_eq!(imported.password.as_deref(), Some("pw"));
    let imported = import_properties(&format!("{head}sasl.jaas.config=m username=bob password=\"open;"), "x").unwrap();
    assert_eq!(imported.password, None);
}

#[test]
fn trust_stores_are_known_by_their_type_or_their_name() {
    let store = |more: &str| {
        import_properties(&format!("bootstrap.servers=b:1\n{more}"), "x").unwrap().trust_store.unwrap()
    };
    assert_eq!(store("ssl.truststore.location=/a/b.PEM"), TrustStore::Pem("/a/b.PEM".into()));
    assert_eq!(store("ssl.truststore.location=/a/b.crt/"), TrustStore::Pem("/a/b.crt/".into()));
    assert_eq!(
        store("ssl.truststore.location=c.p12\nssl.truststore.password=pw"),
        TrustStore::Pkcs12 { path: "c.p12".into(), password: Some("pw".into()) }
    );
    assert_eq!(store("ssl.truststore.location=/a/.pem"), TrustStore::Jks { path: "/a/.pem".into() });
    assert_eq!(store("ssl.truststore.location=/a.pem/.."), TrustStore::Jks { path: "/a.pem/..".into() });
    assert_eq!(store("ssl.truststore.location=/a/b.pem\nssl.truststore.type=jks"), TrustStore::Jks { path: "/a/b.pem".into() });
}

#[test]
fn a_line_that_is_never_finished_says_nothing() {
    let map = parse_properties("a=1\r\na=2\nb=x\\\\\n=empty\nnothing\nc=y\\");
    assert_eq!(map.get("a").unwrap(), "2");
    assert_eq!(map.get("b").unwrap(), "x\\");
    assert_eq!(map.len(), 2);
    assert_eq!(parse_properties("t=a\\tb\\nc\\qd\\").get("t"), None);
    assert_eq!(parse_properties("t=a\\tb\\nc\\qd").get("t").unwrap(), "a\tb\ncqd");
}

#[test]
fn a_file_behind_another_wins() {
    let both = parse_properties("a=1\nb=2\r\n# end\nb=3\nc=\\\n 4\n");
    let first = parse_properties("a=1\nb=2\r\n# end\n");
    let second = parse_properties("b=3\nc=\\\n 4\n");
    for key in ["a", "b", "c"] {
        assert_eq!(both.get(key), second.get(key).or(first.get(key)), "key {key}");
    }
    assert_eq!(both.get("b").map(String::as_str), Some("3"));
    assert_eq!(both.get("c").map(String::as_str), Some("4"));
}
