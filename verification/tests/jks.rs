use kafkamitter::model::jks::{trusted_certificates, JksCertificate, JksError, JKS_MAGIC, TAG_PRIVATE_KEY, TAG_TRUSTED_CERT};

fn utf(s: &str) -> Vec<u8> {
    let mut out = (s.len() as u16).to_be_bytes().to_vec();
    out.extend_from_slice(s.as_bytes());
    out
}

fn build(version: u32, entries: &[(u32, &str, &[u8])]) -> Vec<u8> {
    let mut b = Vec::new();
    b.extend_from_slice(&JKS_MAGIC.to_be_bytes());
    b.extend_from_slice(&version.to_be_bytes());
    b.extend_from_slice(&(entries.len() as u32).to_be_bytes());
    for (tag, alias, data) in entries {
        b.extend_from_slice(&tag.to_be_bytes());
        b.extend_from_slice(&utf(alias));
        b.extend_from_slice(&[0u8; 8]);
        match *tag {
            TAG_TRUSTED_CERT => {
                if version == 2 {
                    b.extend_from_slice(&utf("X.509"));
                }
                b.extend_from_slice(&(data.len() as u32).to_be_bytes());
                b.extend_from_slice(data);
            }
            _ => {
                b.extend_from_slice(&(data.len() as u32).to_be_bytes());
                b.extend_from_slice(data);
                b.extend_from_slice(&1u32.to_be_bytes());
                if version == 2 {
                    b.extend_from_slice(&utf("X.509"));
                }
                b.extend_from_slice(&3u32.to_be_bytes());
                b.extend_from_slice(&[9, 9, 9]);
            }
        }
    }
    b.extend_from_slice(&[0u8; 20]);
    b
}

#[test]
fn reads_trusted_certificates_and_skips_private_keys() {
    let bytes = build(
        2,
        &[
            (TAG_PRIVATE_KEY, "client", &[1, 2, 3, 4]),
            (TAG_TRUSTED_CERT, "ca", &[0x30, 0x03, 0x02, 0x01, 0x01]),
        ],
    );
    let certs = trusted_certificates(&bytes).unwrap();
    assert_eq!(
        certs,
        vec![JksCertificate {
            alias: "ca".into(),
            der: vec![0x30, 0x03, 0x02, 0x01, 0x01]
        }]
    );
}

#[test]
fn reads_version_one_stores() {
    let bytes = build(1, &[(TAG_TRUSTED_CERT, "root", &[7, 7])]);
    assert_eq!(trusted_certificates(&bytes).unwrap()[0].der, vec![7, 7]);
}

#[test]
fn rejects_other_formats_and_truncation() {
    assert_eq!(trusted_certificates(&[0, 1, 2, 3, 0, 0, 0, 2]), Err(JksError::NotJks));
    let bytes = build(2, &[(TAG_TRUSTED_CERT, "ca", &[1, 2, 3])]);
    assert_eq!(trusted_certificates(&bytes[..bytes.len() - 25]), Err(JksError::Truncated));
    let mut bad = build(2, &[(TAG_TRUSTED_CERT, "ca", &[1])]);
    bad[4..8].copy_from_slice(&9u32.to_be_bytes());
    assert_eq!(trusted_certificates(&bad), Err(JksError::UnsupportedVersion(9)));
}

#[test]
fn rejects_bad_aliases_and_unknown_tags() {
    let mut bytes = build(2, &[(TAG_TRUSTED_CERT, "ca", &[1])]);
    bytes[18] = 0xff;
    assert_eq!(trusted_certificates(&bytes), Err(JksError::BadAlias));
    let bytes = build(2, &[(7, "odd", &[1])]);
    assert_eq!(trusted_certificates(&bytes), Err(JksError::UnknownTag(7)));
}

#[test]
fn key_store_errors_have_words() {
    assert_eq!(JksError::NotJks.message(), "file is not a JKS keystore");
    assert_eq!(JksError::UnsupportedVersion(9).message(), "JKS version 9 is not supported");
    assert_eq!(JksError::Truncated.message(), "JKS keystore is truncated");
    assert_eq!(JksError::BadAlias.message(), "JKS alias is not valid UTF-8");
    assert_eq!(JksError::UnknownTag(4294967295).message(), "JKS entry tag 4294967295 is unknown");
}
