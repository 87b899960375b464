use kafkamitter::model::assignment::{decode_assignment, DecodeError, TopicAssignment};

fn encode(version: i16, topics: &[(&str, &[i32])], user_data: Option<&[u8]>) -> Vec<u8> {
    let mut b = Vec::new();
    b.extend_from_slice(&version.to_be_bytes());
    b.extend_from_slice(&(topics.len() as i32).to_be_bytes());
    for (topic, partitions) in topics {
        b.extend_from_slice(&(topic.len() as i16).to_be_bytes());
        b.extend_from_slice(topic.as_bytes());
        b.extend_from_slice(&(partitions.len() as i32).to_be_bytes());
        for p in *partitions {
            b.extend_from_slice(&p.to_be_bytes());
        }
    }
    match user_data {
        Some(d) => {
            b.extend_from_slice(&(d.len() as i32).to_be_bytes());
            b.extend_from_slice(d);
        }
        None => b.extend_from_slice(&(-1i32).to_be_bytes()),
    }
    b
}

#[test]
fn decodes_one_topic() {
    let bytes = encode(0, &[("orders", &[0, 2])], None);
    let out = decode_assignment(&bytes).unwrap();
    assert_eq!(
        out,
        vec![TopicAssignment {
            topic: "orders".into(),
            partitions: vec![0, 2]
        }]
    );
}

#[test]
fn decodes_several_topics_and_ignores_user_data() {
    let bytes = encode(1, &[("a", &[1]), ("b", &[]), ("c", &[3, 4, 5])], Some(b"opaque"));
    let out = decode_assignment(&bytes).unwrap();
    assert_eq!(out.len(), 3);
    assert_eq!(out[1].topic, "b");
    assert!(out[1].partitions.is_empty());
    assert_eq!(out[2].partitions, vec![3, 4, 5]);
}

#[test]
fn decodes_an_empty_assignment() {
    let bytes = encode(0, &[], None);
    assert_eq!(decode_assignment(&bytes).unwrap(), vec![]);
}

#[test]
fn rejects_truncated_input() {
    let bytes = encode(0, &[("orders", &[0, 1, 2])], None);
    for cut in 0..bytes.len() - 4 {
        assert_eq!(decode_assignment(&bytes[..cut]), Err(DecodeError::Truncated), "cut at {cut}");
    }
}

#[test]
fn rejects_negative_lengths_and_versions() {
    let mut bytes = encode(0, &[("orders", &[0])], None);
    bytes[2..6].copy_from_slice(&(-5i32).to_be_bytes());
    assert_eq!(decode_assignment(&bytes), Err(DecodeError::NegativeLength));

    let mut bytes = encode(0, &[("orders", &[0])], None);
    bytes[0..2].copy_from_slice(&(-1i16).to_be_bytes());
    assert_eq!(decode_assignment(&bytes), Err(DecodeError::UnsupportedVersion(-1)));
}

#[test]
fn rejects_invalid_utf8_topic_names() {
    let mut bytes = encode(0, &[("ab", &[0])], None);
    bytes[8] = 0xff;
    assert_eq!(decode_assignment(&bytes), Err(DecodeError::InvalidUtf8));
}

#[test]
fn decodes_negative_partitions_and_names_that_are_not_ascii() {
    let bytes = encode(3, &[("größe", &[-7, i32::MAX])], None);
    let out = decode_assignment(&bytes).unwrap();
    assert_eq!(out[0].topic, "größe");
    assert_eq!(out[0].partitions, vec![-7, i32::MAX]);
}

#[test]
fn decode_errors_have_words() {
    assert_eq!(DecodeError::Truncated.message(), "assignment bytes are truncated");
    assert_eq!(DecodeError::NegativeLength.message(), "assignment contains a negative length");
    assert_eq!(DecodeError::InvalidUtf8.message(), "assignment topic name is not UTF-8");
    assert_eq!(DecodeError::UnsupportedVersion(-1).message(), "assignment version -1 is not supported");
}
