use atom_mqtt::common::{MqttError, QoS};
use atom_mqtt::v3::codec::{
    decode_packet, decode_publish, encode_connack, encode_connect, encode_packet, encode_publish, encode_subscribe,
};
use atom_mqtt::v3::types::{
    ConnAckPacket, ConnectPacket, ConnectReturnCode, MqttPacketV3, PingReqPacket, PubRelPacket, PublishPacket,
    SubAckPacket, SubAckReturnCode, SubscribeFilter, SubscribePacket, UnsubscribePacket, Will,
};
use bytes::BytesMut;

#[test]
fn test_connect_roundtrip() {
    let packet = ConnectPacket {
        client_id: "test_client".to_string(),
        clean_session: true,
        keep_alive: 60,
        will: None,
        username: Some("user".to_string()),
        password: Some("pass".to_string()),
    };

    let encoded = encode_connect(&packet).unwrap();
    let (decoded, _) = decode_packet(&encoded).unwrap().unwrap();

    match decoded {
        MqttPacketV3::Connect(c) => {
            assert_eq!(c.client_id, "test_client");
            assert!(c.clean_session);
            assert_eq!(c.keep_alive, 60);
            assert_eq!(c.username, Some("user".to_string()));
            assert_eq!(c.password, Some("pass".to_string()));
        }
        _ => panic!("Expected Connect packet"),
    }
}

#[test]
fn test_publish_qos0() {
    let packet = PublishPacket {
        topic: "test/topic".to_string(),
        payload: b"hello".to_vec(),
        qos: QoS::AtMostOnce,
        retain: false,
        packet_id: None,
    };

    let encoded = encode_publish(&packet).unwrap();
    let decoded = decode_publish(&encoded[2..], encoded[0]).unwrap();
    assert_eq!(decoded.topic, "test/topic");
    assert_eq!(decoded.payload, b"hello");
    assert_eq!(decoded.qos, QoS::AtMostOnce);
}

#[test]
fn test_publish_qos1() {
    let packet = PublishPacket {
        topic: "test/topic".to_string(),
        payload: b"world".to_vec(),
        qos: QoS::AtLeastOnce,
        retain: false,
        packet_id: Some(42),
    };

    let encoded = encode_publish(&packet).unwrap();
    let (decoded, _) = decode_packet(&encoded).unwrap().unwrap();

    match decoded {
        MqttPacketV3::Publish(p) => {
            assert_eq!(p.topic, "test/topic");
            assert_eq!(p.qos, QoS::AtLeastOnce);
            assert_eq!(p.packet_id, Some(42));
        }
        _ => panic!("Expected Publish packet"),
    }
}

#[test]
fn test_subscribe_roundtrip() {
    let packet = SubscribePacket {
        packet_id: 1,
        filters: vec![
            SubscribeFilter { path: "sensor/+".to_string(), qos: QoS::AtMostOnce },
            SubscribeFilter { path: "actuator/#".to_string(), qos: QoS::ExactlyOnce },
        ],
    };

    let encoded = encode_subscribe(&packet).unwrap();
    let (decoded, _) = decode_packet(&encoded).unwrap().unwrap();

    match decoded {
        MqttPacketV3::Subscribe(s) => {
            assert_eq!(s.packet_id, 1);
            assert_eq!(s.filters.len(), 2);
            assert_eq!(s.filters[0].path, "sensor/+");
        }
        _ => panic!("Expected Subscribe packet"),
    }
}

#[test]
fn test_connack() {
    let packet = ConnAckPacket { session_present: false, return_code: ConnectReturnCode::Accepted };
    let encoded = encode_connack(&packet).unwrap();
    let (decoded, _) = decode_packet(&encoded).unwrap().unwrap();
    match decoded {
        MqttPacketV3::ConnAck(c) => {
            assert_eq!(c.return_code, ConnectReturnCode::Accepted);
            assert!(!c.session_present);
        }
        _ => panic!("Expected ConnAck"),
    }
}

#[test]
fn connect_with_will_roundtrip() {
    let packet = ConnectPacket {
        client_id: "c".to_string(),
        clean_session: false,
        keep_alive: 5,
        will: Some(Will { topic: "last/words".into(), message: vec![1, 2, 3], qos: QoS::AtLeastOnce, retain: true }),
        username: None,
        password: None,
    };
    let encoded = encode_connect(&packet).unwrap();
    let (decoded, n) = decode_packet(&encoded).unwrap().unwrap();
    assert_eq!(n, encoded.len());
    match decoded {
        MqttPacketV3::Connect(c) => {
            let w = c.will.unwrap();
            assert_eq!(w.topic, "last/words");
            assert_eq!(w.message, vec![1, 2, 3]);
            assert_eq!(w.qos, QoS::AtLeastOnce);
            assert!(w.retain);
            assert!(!c.clean_session);
            assert_eq!(c.username, None);
        }
        _ => panic!("Expected Connect packet"),
    }
}

#[test]
fn publish_header_bytes() {
    let packet = PublishPacket {
        topic: "t".to_string(),
        payload: vec![9],
        qos: QoS::ExactlyOnce,
        retain: true,
        packet_id: Some(0x0102),
    };
    let encoded = encode_publish(&packet).unwrap();
    // type 3, DUP, QoS 2, RETAIN; remaining 6; topic; packet id; payload
    assert_eq!(&encoded[..], &[0x3D, 0x06, 0x00, 0x01, b't', 0x01, 0x02, 0x09]);
}

#[test]
fn fixed_size_packets() {
    let e = encode_packet(&MqttPacketV3::PingReq(PingReqPacket)).unwrap();
    assert_eq!(&e[..], &[0xC0, 0x00]);
    let e = encode_packet(&MqttPacketV3::PubRel(PubRelPacket { packet_id: 7 })).unwrap();
    assert_eq!(&e[..], &[0x62, 0x02, 0x00, 0x07]);
}

#[test]
fn incomplete_and_bad_input() {
    assert!(decode_packet(&BytesMut::new()).unwrap().is_none());
    assert!(decode_packet(&BytesMut::from(&[0x30u8][..])).unwrap().is_none());
    assert!(decode_packet(&BytesMut::from(&[0x30u8, 0x05, 0x00][..])).unwrap().is_none());
    assert!(matches!(decode_packet(&BytesMut::from(&[0x00u8, 0x00][..])), Err(MqttError::InvalidPacket(_))));
    assert!(matches!(decode_packet(&BytesMut::from(&[0xF0u8, 0x00][..])), Err(MqttError::InvalidPacket(_))));
    assert!(matches!(
        decode_packet(&BytesMut::from(&[0x30u8, 0xFF, 0xFF, 0xFF, 0x7F][..])),
        Err(MqttError::PacketTooLarge(268435460))
    ));
    // Protocol level 5 in a 3.1.1 CONNECT
    let bytes = [0x10u8, 0x0A, 0x00, 0x04, b'M', b'Q', b'T', b'T', 0x05, 0x00, 0x00, 0x3C];
    assert!(matches!(decode_packet(&BytesMut::from(&bytes[..])), Err(MqttError::UnsupportedVersion(5))));
}

#[test]
fn suback_skips_unknown_codes_and_unsubscribe_roundtrips() {
    let bytes = [0x90u8, 0x05, 0x00, 0x01, 0x00, 0x07, 0x80];
    let (p, _) = decode_packet(&BytesMut::from(&bytes[..])).unwrap().unwrap();
    match p {
        MqttPacketV3::SubAck(SubAckPacket { packet_id, return_codes }) => {
            assert_eq!(packet_id, 1);
            assert_eq!(return_codes, vec![SubAckReturnCode::SuccessQoS0, SubAckReturnCode::Failure]);
        }
        _ => panic!("Expected SubAck"),
    }
    let u = UnsubscribePacket { packet_id: 3, filters: vec!["a".into(), "b/c".into()] };
    let e = encode_packet(&MqttPacketV3::Unsubscribe(u)).unwrap();
    let (d, _) = decode_packet(&e).unwrap().unwrap();
    match d {
        MqttPacketV3::Unsubscribe(u) => assert_eq!(u.filters, vec!["a".to_string(), "b/c".to_string()]),
        _ => panic!("Expected Unsubscribe"),
    }
}
