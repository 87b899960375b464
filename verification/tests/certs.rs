use base64::Engine as _;
use kafkamitter::kafka::certs::{bundle, der_to_pem, system_ca_pem};

#[test]
fn wraps_base64_at_64_columns() {
    let der: Vec<u8> = (0..100u8).collect();
    let pem = der_to_pem(&der);
    let lines: Vec<&str> = pem.lines().collect();
    assert_eq!(lines[0], "-----BEGIN CERTIFICATE-----");
    assert_eq!(lines[lines.len() - 1], "-----END CERTIFICATE-----");
    let body = &lines[1..lines.len() - 1];
    assert_eq!(body.len(), 3);
    assert!(body[..2].iter().all(|l| l.len() == 64));
    assert_eq!(body[2].len(), 136 - 128);
    let joined: String = body.concat();
    let decoded = base64::engine::general_purpose::STANDARD.decode(joined).unwrap();
    assert_eq!(decoded, der);
}

#[test]
fn a_small_certificate_is_one_line() {
    assert_eq!(
        der_to_pem(&[0x30, 0x03, 0x02, 0x01, 0x05]),
        "-----BEGIN CERTIFICATE-----\nMAMCAQU=\n-----END CERTIFICATE-----\n"
    );
    assert_eq!(der_to_pem(&[]), "-----BEGIN CERTIFICATE-----\n-----END CERTIFICATE-----\n");
    assert_eq!(
        der_to_pem(&[0xfb, 0xff]),
        "-----BEGIN CERTIFICATE-----\n+/8=\n-----END CERTIFICATE-----\n"
    );
}

#[test]
fn a_full_line_has_no_empty_one_behind_it() {
    let pem = der_to_pem(&[0u8; 48]);
    assert_eq!(pem.lines().count(), 3);
    assert_eq!(pem.lines().nth(1).unwrap(), "A".repeat(64));
}

#[test]
fn certificates_are_bundled_in_their_order() {
    let certs = vec![vec![1u8, 2, 3], vec![4u8, 5, 6]];
    assert_eq!(bundle(&certs), format!("{}{}", der_to_pem(&[1, 2, 3]), der_to_pem(&[4, 5, 6])));
    assert_eq!(bundle(&Vec::new()), "");
}

#[test]
fn a_system_without_roots_gives_none() {
    assert_eq!(system_ca_pem(&Vec::new()), None);
    assert_eq!(system_ca_pem(&vec![vec![1u8, 2, 3]]), Some(der_to_pem(&[1, 2, 3])));
}
