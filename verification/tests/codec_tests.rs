use certbot_agent::codec::{encode_timestamp, parse_timestamp};
use certbot_agent::timestamp::Timestamp;

#[test]
fn encode_is_the_yaml_record() {
    let t = Timestamp::from_micros(1704067200000000);
    let bytes = encode_timestamp(&t);
    assert_eq!(bytes, b"timepoint: 1704067200000000\n".to_vec());
}

#[test]
fn encode_negative_value() {
    let t = Timestamp::from_micros(-42);
    let bytes = encode_timestamp(&t);
    assert_eq!(bytes, b"timepoint: -42\n".to_vec());
}

#[test]
fn encode_zero() {
    let t = Timestamp::from_micros(0);
    let bytes = encode_timestamp(&t);
    assert_eq!(bytes, b"timepoint: 0\n".to_vec());
}

#[test]
fn round_trip_preserves_micros() {
    for m in [
        0i64,
        1,
        -1,
        9,
        10,
        1704067200000000,
        -1704067200000000,
        i64::MAX,
        i64::MIN,
        i64::MIN + 1,
    ] {
        let t = Timestamp::from_micros(m);
        let bytes = encode_timestamp(&t);
        let back = parse_timestamp(&bytes);
        assert_eq!(back, Some(t));
    }
}

#[test]
fn parse_exact_record() {
    let bytes = b"timepoint: 123456\n".to_vec();
    assert_eq!(parse_timestamp(&bytes), Some(Timestamp::from_micros(123456)));
}

#[test]
fn parse_accepts_leading_zeros() {
    let bytes = b"timepoint: 007\n".to_vec();
    assert_eq!(parse_timestamp(&bytes), Some(Timestamp::from_micros(7)));
}

#[test]
fn parse_rejects_empty() {
    assert_eq!(parse_timestamp(&Vec::new()), None);
}

#[test]
fn parse_rejects_wrong_key() {
    let bytes = b"timestamp: 123456\n".to_vec();
    assert_eq!(parse_timestamp(&bytes), None);
}

#[test]
fn parse_rejects_missing_newline() {
    let bytes = b"timepoint: 123456".to_vec();
    assert_eq!(parse_timestamp(&bytes), None);
}

#[test]
fn parse_rejects_no_digits() {
    let bytes = b"timepoint: -\n".to_vec();
    assert_eq!(parse_timestamp(&bytes), None);
    let bytes = b"timepoint: \n".to_vec();
    assert_eq!(parse_timestamp(&bytes), None);
}

#[test]
fn parse_rejects_non_digits() {
    let bytes = b"timepoint: 12a4\n".to_vec();
    assert_eq!(parse_timestamp(&bytes), None);
}

#[test]
fn parse_rejects_out_of_range() {
    // One past i64::MAX.
    let bytes = b"timepoint: 9223372036854775808\n".to_vec();
    assert_eq!(parse_timestamp(&bytes), None);
    // One past i64::MIN.
    let bytes = b"timepoint: -9223372036854775809\n".to_vec();
    assert_eq!(parse_timestamp(&bytes), None);
    // Far past the 64-bit range.
    let bytes = b"timepoint: 99999999999999999999999\n".to_vec();
    assert_eq!(parse_timestamp(&bytes), None);
}

#[test]
fn parse_extremes() {
    let bytes = b"timepoint: 9223372036854775807\n".to_vec();
    assert_eq!(parse_timestamp(&bytes), Some(Timestamp::from_micros(i64::MAX)));
    let bytes = b"timepoint: -9223372036854775808\n".to_vec();
    assert_eq!(parse_timestamp(&bytes), Some(Timestamp::from_micros(i64::MIN)));
}

#[test]
fn encode_matches_serde_yaml_output() {
    // The record must be byte-for-byte what a YAML serializer writes for a
    // one-field mapping holding the microsecond count.
    let mut mapping = serde_yaml::Mapping::new();
    mapping.insert(
        serde_yaml::Value::String("timepoint".to_string()),
        serde_yaml::Value::Number(serde_yaml::Number::from(1704067200000000i64)),
    );
    let yaml = serde_yaml::to_string(&serde_yaml::Value::Mapping(mapping)).unwrap();
    let t = Timestamp::from_micros(1704067200000000);
    assert_eq!(encode_timestamp(&t), yaml.into_bytes());
}

#[test]
fn parse_accepts_serde_yaml_output() {
    let mut mapping = serde_yaml::Mapping::new();
    mapping.insert(
        serde_yaml::Value::String("timepoint".to_string()),
        serde_yaml::Value::Number(serde_yaml::Number::from(-77i64)),
    );
    let yaml = serde_yaml::to_string(&serde_yaml::Value::Mapping(mapping)).unwrap();
    assert_eq!(
        parse_timestamp(&yaml.into_bytes()),
        Some(Timestamp::from_micros(-77))
    );
}

#[test]
fn chrono_micros_of_known_instant() {
    // The instant the scenario tests use, as chrono computes it.
    let dt = chrono::DateTime::parse_from_rfc3339("2024-01-01T00:00:00Z").unwrap();
    assert_eq!(dt.timestamp_micros(), 1704067200000000);
}
