use atom_mqtt::common::{
    decode_remaining_length, decode_string, encode_remaining_length, encode_string, MqttError, PacketType,
    ProtocolVersion, QoS, TopicFilter, TopicName,
};

#[test]
fn test_remaining_length_encoding() {
    let cases: Vec<(usize, Vec<u8>)> = vec![
        (0, vec![0x00]),
        (127, vec![0x7F]),
        (128, vec![0x80, 0x01]),
        (16383, vec![0xFF, 0x7F]),
        (2097151, vec![0xFF, 0xFF, 0x7F]),
        (268435455, vec![0xFF, 0xFF, 0xFF, 0x7F]),
    ];

    for (input, expected) in cases {
        let encoded = encode_remaining_length(input);
        assert_eq!(encoded, expected, "Encoding failed for {input}");
        let (decoded, _) = decode_remaining_length(&encoded).unwrap();
        assert_eq!(decoded, input, "Decoding failed for {input}");
    }
}

#[test]
fn test_topic_filter() {
    let filter = TopicFilter::new("sensor/+/temperature");
    assert!(filter.matches("sensor/room1/temperature"));
    assert!(filter.matches("sensor/room2/temperature"));
    assert!(!filter.matches("sensor/room1/humidity"));
    assert!(!filter.matches("sensor/room1/temperature/extra"));

    let multi = TopicFilter::new("sensor/#");
    assert!(multi.matches("sensor/room1/temperature"));
    assert!(multi.matches("sensor/room1"));
    assert!(!multi.matches("actuator/light"));

    let exact = TopicFilter::new("test/topic");
    assert!(exact.matches("test/topic"));
    assert!(!exact.matches("test/topic/extra"));
}

#[test]
fn test_string_encoding() {
    let s = "hello";
    let encoded = encode_string(s);
    assert_eq!(encoded.len(), 2 + 5);
    let (decoded, _) = decode_string(&encoded).unwrap();
    assert_eq!(decoded, s);
}

#[test]
fn remaining_length_unterminated_is_malformed() {
    // Four continuation bytes: no terminator within four bytes.
    assert!(matches!(
        decode_remaining_length(&[0xFF, 0xFF, 0xFF, 0xFF, 0x01]),
        Err(MqttError::MalformedRemainingLength)
    ));
    // Too short to hold the terminator.
    assert!(matches!(decode_remaining_length(&[0x80]), Err(MqttError::MalformedRemainingLength)));
    assert!(matches!(decode_remaining_length(&[]), Err(MqttError::MalformedRemainingLength)));
}

#[test]
fn remaining_length_reports_bytes_consumed() {
    assert_eq!(decode_remaining_length(&[0x80, 0x01, 0x55]).unwrap(), (128, 2));
    assert_eq!(decode_remaining_length(&[0x05]).unwrap(), (5, 1));
}

#[test]
fn string_decoding_errors() {
    assert!(matches!(decode_string(&[0x00]), Err(MqttError::InvalidPacket(_))));
    assert!(matches!(decode_string(&[0x00, 0x03, b'a']), Err(MqttError::InvalidPacket(_))));
    assert!(matches!(decode_string(&[0x00, 0x01, 0xFF]), Err(MqttError::InvalidUtf8)));
    let (s, n) = decode_string(&[0x00, 0x02, b'h', b'i', b'!']).unwrap();
    assert_eq!((s, n), ("hi", 4));
}

#[test]
fn string_encoding_bytes() {
    assert_eq!(encode_string("ab"), vec![0x00, 0x02, b'a', b'b']);
    assert_eq!(encode_string(""), vec![0x00, 0x00]);
}

#[test]
fn qos_wire_values_and_names() {
    for v in 0u8..=2 {
        assert_eq!(QoS::from_u8(v).unwrap().to_u8(), v);
    }
    assert_eq!(QoS::from_u8(3), None);
    assert_eq!(QoS::AtLeastOnce.to_string(), "QoS1");
    assert_eq!(QoS::ExactlyOnce.to_string(), "QoS2");
}

#[test]
fn packet_type_header_bytes() {
    assert_eq!(PacketType::from_u8(0x10), Some(PacketType::Connect));
    assert_eq!(PacketType::from_u8(0x3D), Some(PacketType::Publish));
    assert_eq!(PacketType::from_u8(0x0F), None);
    assert_eq!(PacketType::Subscribe.to_u8(), 0x80);
    assert!(PacketType::PubAck.has_packet_id());
    assert!(!PacketType::Connect.has_packet_id());
    assert!(!PacketType::Publish.is_control());
    assert!(PacketType::PingReq.is_control());
}

#[test]
fn protocol_version_fields() {
    assert_eq!(ProtocolVersion::V311.level_byte(), 4);
    assert_eq!(ProtocolVersion::V5.level_byte(), 5);
    assert_eq!(ProtocolVersion::V5.name_str(), "MQTT");
}

#[test]
fn topic_filter_trims_and_topic_names_validate() {
    let f = TopicFilter::new("  a/+  ");
    assert_eq!(f.as_str(), "a/+");
    assert!(f.matches("a/b"));
    assert!(TopicName::new("a/b").is_valid());
    assert!(!TopicName::new("a/+").is_valid());
    assert!(!TopicName::new("").is_valid());
    assert_eq!(TopicName::new("x").as_str(), "x");
}
