use atom_mqtt::common::QoS;
use atom_mqtt::v5::codec::{decode_packet, encode_connect, encode_packet, encode_publish, encode_subscribe};
use atom_mqtt::v5::properties::{Properties, PropertyId, PropertyValue};
use atom_mqtt::v5::types::{
    AuthPacket, ConnectPacket, DisconnectPacket, MqttPacketV5, PubAckPacket, PublishPacket, ReasonCode,
    RetainHandling, SubscribeFilter, SubscribePacket,
};
use bytes::BytesMut;

#[test]
fn test_connect_roundtrip_v5() {
    let packet = ConnectPacket {
        client_id: "client_v5".to_string(),
        clean_start: true,
        keep_alive: 30,
        properties: {
            let mut p = Properties::new();
            p.add(PropertyId::SessionExpiryInterval, PropertyValue::FourByteInteger(3600));
            p.add(PropertyId::ReceiveMaximum, PropertyValue::TwoByteInteger(100));
            p
        },
        will: None,
        username: Some("admin".to_string()),
        password: Some("secret".to_string()),
    };

    let encoded = encode_connect(&packet).unwrap();
    let (decoded, _) = decode_packet(&encoded).unwrap().unwrap();

    match decoded {
        MqttPacketV5::Connect(c) => {
            assert_eq!(c.client_id, "client_v5");
            assert!(c.clean_start);
            assert_eq!(c.username, Some("admin".to_string()));
            assert_eq!(c.properties.session_expiry_interval(), Some(3600));
            assert_eq!(c.properties.receive_maximum(), Some(100));
        }
        _ => panic!("Expected Connect packet"),
    }
}

#[test]
fn test_publish_with_properties() {
    let packet = PublishPacket {
        topic: "test/topic".to_string(),
        payload: b"hello v5".to_vec(),
        qos: QoS::AtLeastOnce,
        retain: false,
        packet_id: Some(10),
        properties: {
            let mut p = Properties::new();
            p.add(PropertyId::PayloadFormatIndicator, PropertyValue::Byte(1));
            p.add(PropertyId::ContentType, PropertyValue::UTF8String("text/plain".to_string()));
            p
        },
    };

    let encoded = encode_publish(&packet).unwrap();
    let (decoded, _) = decode_packet(&encoded).unwrap().unwrap();

    match decoded {
        MqttPacketV5::Publish(p) => {
            assert_eq!(p.topic, "test/topic");
            assert_eq!(p.payload, b"hello v5");
            assert_eq!(p.qos, QoS::AtLeastOnce);
            assert_eq!(p.packet_id, Some(10));
        }
        _ => panic!("Expected Publish packet"),
    }
}

#[test]
fn test_subscribe_v5() {
    let packet = SubscribePacket {
        packet_id: 1,
        filters: vec![SubscribeFilter {
            path: "sensor/+".to_string(),
            qos: QoS::ExactlyOnce,
            no_local: true,
            retain_as_published: false,
            retain_handling: RetainHandling::Send,
        }],
        properties: Properties::new(),
    };

    let encoded = encode_subscribe(&packet).unwrap();
    let (decoded, _) = decode_packet(&encoded).unwrap().unwrap();

    match decoded {
        MqttPacketV5::Subscribe(s) => {
            assert_eq!(s.packet_id, 1);
            assert_eq!(s.filters.len(), 1);
            assert!(s.filters[0].no_local);
            assert_eq!(s.filters[0].qos, QoS::ExactlyOnce);
        }
        _ => panic!("Expected Subscribe packet"),
    }
}

#[test]
fn properties_roundtrip_every_kind() {
    let mut p = Properties::new();
    p.add(PropertyId::PayloadFormatIndicator, PropertyValue::Byte(1));
    p.add(PropertyId::TopicAlias, PropertyValue::TwoByteInteger(513));
    p.add(PropertyId::MessageExpiryInterval, PropertyValue::FourByteInteger(0x01020304));
    p.add(PropertyId::SubscriptionIdentifier, PropertyValue::VariableByteInteger(300));
    p.add(PropertyId::CorrelationData, PropertyValue::BinaryData(vec![0, 1, 2]));
    p.add(PropertyId::ReasonString, PropertyValue::UTF8String("why".into()));
    p.add(PropertyId::UserProperty, PropertyValue::Pair("k".into(), "v".into()));
    let bytes = p.encode();
    let (q, n) = Properties::decode(&bytes).unwrap();
    assert_eq!(n, bytes.len());
    assert_eq!(q, p);
    assert_eq!(q.reason_string(), Some("why"));
    assert_eq!(q.get(PropertyId::UserProperty).len(), 1);
    assert_eq!(q.get_first(PropertyId::TopicAlias), Some(&PropertyValue::TwoByteInteger(513)));
    assert_eq!(q.topic_alias_maximum(), None);
}

#[test]
fn properties_decoding_edge_cases() {
    let (p, n) = Properties::decode(&[]).unwrap();
    assert!(p.is_empty());
    assert_eq!(n, 0);
    let (p, n) = Properties::decode(&[0x00, 0xAA]).unwrap();
    assert!(p.is_empty());
    assert_eq!(n, 1);
    assert!(Properties::decode(&[0x05, 0x01]).is_err());
    assert!(Properties::decode(&[0x02, 0x07, 0x00]).is_err());
    assert!(Properties::decode(&[0x01, 0x13]).is_err());
    assert_eq!(Properties::new().encode(), vec![0x00]);
}

#[test]
fn acknowledgements_default_their_reason_code() {
    let (p, _) = decode_packet(&BytesMut::from(&[0x40u8, 0x02, 0x00, 0x05][..])).unwrap().unwrap();
    match p {
        MqttPacketV5::PubAck(a) => {
            assert_eq!(a.packet_id, 5);
            assert_eq!(a.reason_code, ReasonCode::Success);
        }
        _ => panic!("Expected PubAck"),
    }
    let e = encode_packet(&MqttPacketV5::PubAck(PubAckPacket {
        packet_id: 5,
        reason_code: ReasonCode::NotAuthorized,
        properties: Properties::new(),
    }))
    .unwrap();
    assert_eq!(&e[..], &[0x40, 0x04, 0x00, 0x05, 135, 0x00]);
}

#[test]
fn disconnect_and_auth_roundtrip() {
    let e = encode_packet(&MqttPacketV5::Disconnect(DisconnectPacket {
        reason_code: ReasonCode::DisconnectWithWillMessage,
        properties: Properties::new(),
    }))
    .unwrap();
    match decode_packet(&e).unwrap().unwrap().0 {
        MqttPacketV5::Disconnect(d) => assert_eq!(d.reason_code, ReasonCode::DisconnectWithWillMessage),
        _ => panic!("Expected Disconnect"),
    }
    let (d, _) = decode_packet(&BytesMut::from(&[0xE0u8, 0x00][..])).unwrap().unwrap();
    match d {
        MqttPacketV5::Disconnect(d) => assert_eq!(d.reason_code, ReasonCode::Success),
        _ => panic!("Expected Disconnect"),
    }
    let e = encode_packet(&MqttPacketV5::Auth(AuthPacket {
        reason_code: ReasonCode::ContinueAuthentication,
        properties: Properties::new(),
    }))
    .unwrap();
    assert_eq!(&e[..], &[0xF0, 0x02, 24, 0x00]);
    assert!(decode_packet(&BytesMut::from(&[0xF0u8, 0x00][..])).is_err());
}

#[test]
fn reason_codes() {
    assert_eq!(ReasonCode::from_u8(0x87), Some(ReasonCode::NotAuthorized));
    assert_eq!(ReasonCode::from_u8(3), None);
    assert_eq!(ReasonCode::TopicAliasInvalid.to_u8(), 148);
    assert!(ReasonCode::GrantedQoS2.is_success());
    assert!(!ReasonCode::Banned.is_success());
    assert_eq!(ReasonCode::normal_disconnection(), ReasonCode::Success);
    assert_eq!(ReasonCode::granted_qos0(), ReasonCode::Success);
    assert_eq!(RetainHandling::from_u8(0x06), Some(RetainHandling::DoNotSend));
    assert_eq!(RetainHandling::from_u8(3), None);
}
