use atom_mqtt::client::{
    read_outcome, ReadOutcome, MAX_PACKET_SIZE,
    answer_packet, connack_result, connect_packet, next_packet_id, parse_qos, parse_shell_command, publish_packet,
    split_words, subscribe_packet, unsubscribe_packet, ConnectFailure, PacketIds, ShellCommand, ShellVerb,
};
use atom_mqtt::common::QoS;
use atom_mqtt::v3::types::{
    ConnAckPacket, ConnectReturnCode, MqttPacketV3, PingRespPacket, PubAckPacket, PublishPacket,
};

fn words(s: &str) -> Vec<String> {
    split_words(s).into_iter().map(|w| w.into_iter().collect()).collect()
}

#[test]
fn shell_words_split_on_whitespace() {
    assert_eq!(words("  pub  a/b\thello \n"), vec!["pub", "a/b", "hello"]);
    assert!(words("   ").is_empty());
    assert!(words("").is_empty());
    assert_eq!(words("x"), vec!["x"]);
}

#[test]
fn shell_blank_and_quit() {
    assert!(matches!(parse_shell_command("   "), ShellCommand::Blank));
    assert!(matches!(parse_shell_command("quit"), ShellCommand::Quit));
    assert!(matches!(parse_shell_command(" exit "), ShellCommand::Quit));
    assert!(matches!(parse_shell_command("q"), ShellCommand::Quit));
    assert!(matches!(parse_shell_command("ping"), ShellCommand::Ping));
}

#[test]
fn shell_publish_with_options() {
    match parse_shell_command("pub sensor/temp 21.5 -q 1 -r") {
        ShellCommand::Publish { topic, payload, qos, retain } => {
            assert_eq!(topic, "sensor/temp");
            assert_eq!(payload, "21.5");
            assert_eq!(qos, QoS::AtLeastOnce);
            assert!(retain);
        }
        other => panic!("unexpected {other:?}"),
    }
    match parse_shell_command("pub t m") {
        ShellCommand::Publish { qos, retain, .. } => {
            assert_eq!(qos, QoS::AtMostOnce);
            assert!(!retain);
        }
        other => panic!("unexpected {other:?}"),
    }
    // A later -q wins; an unparsable number means 0; a dangling -q is ignored.
    match parse_shell_command("pub t m -q 2 -q x -q") {
        ShellCommand::Publish { qos, .. } => assert_eq!(qos, QoS::AtMostOnce),
        other => panic!("unexpected {other:?}"),
    }
    assert!(matches!(parse_shell_command("pub t m -q 5"), ShellCommand::InvalidQos(5)));
    assert!(matches!(parse_shell_command("pub t"), ShellCommand::Usage(ShellVerb::Publish)));
}

#[test]
fn shell_subscribe_and_unsubscribe() {
    match parse_shell_command("sub sensor/# -q 2") {
        ShellCommand::Subscribe { topic, qos } => {
            assert_eq!(topic, "sensor/#");
            assert_eq!(qos, QoS::ExactlyOnce);
        }
        other => panic!("unexpected {other:?}"),
    }
    // "-q" without a value is not read.
    match parse_shell_command("sub a -q") {
        ShellCommand::Subscribe { qos, .. } => assert_eq!(qos, QoS::AtMostOnce),
        other => panic!("unexpected {other:?}"),
    }
    assert!(matches!(parse_shell_command("sub a -q 9"), ShellCommand::InvalidQos(9)));
    assert!(matches!(parse_shell_command("sub"), ShellCommand::Usage(ShellVerb::Subscribe)));
    match parse_shell_command("unsub a/b") {
        ShellCommand::Unsubscribe { topic } => assert_eq!(topic, "a/b"),
        other => panic!("unexpected {other:?}"),
    }
    assert!(matches!(parse_shell_command("unsub"), ShellCommand::Usage(ShellVerb::Unsubscribe)));
    match parse_shell_command("hello world") {
        ShellCommand::Unknown(w) => assert_eq!(w, "hello"),
        other => panic!("unexpected {other:?}"),
    }
}

#[test]
fn qos_numbers() {
    assert_eq!(parse_qos(0), Ok(QoS::AtMostOnce));
    assert_eq!(parse_qos(1), Ok(QoS::AtLeastOnce));
    assert_eq!(parse_qos(2), Ok(QoS::ExactlyOnce));
    assert_eq!(parse_qos(3), Err(3));
}

#[test]
fn packet_ids_skip_zero_and_wrap() {
    let mut ids = PacketIds::new();
    assert_eq!(next_packet_id(&mut ids), 1);
    assert_eq!(next_packet_id(&mut ids), 2);
    ids.next = u16::MAX;
    assert_eq!(next_packet_id(&mut ids), u16::MAX);
    assert_eq!(ids.next, 0);
    assert_eq!(next_packet_id(&mut ids), 1);
    assert_eq!(ids.next, 2);
}

#[test]
fn client_packets() {
    match connect_packet("c1") {
        MqttPacketV3::Connect(c) => {
            assert_eq!(c.client_id, "c1");
            assert!(c.clean_session);
            assert_eq!(c.keep_alive, 60);
            assert!(c.will.is_none() && c.username.is_none() && c.password.is_none());
        }
        _ => panic!("expected CONNECT"),
    }
    let mut ids = PacketIds::new();
    match publish_packet(&mut ids, "t", "hi", QoS::AtMostOnce, false) {
        MqttPacketV3::Publish(p) => {
            assert_eq!(p.payload, b"hi".to_vec());
            assert_eq!(p.packet_id, None);
        }
        _ => panic!("expected PUBLISH"),
    }
    assert_eq!(ids.next, 1);
    match publish_packet(&mut ids, "t", "hi", QoS::AtLeastOnce, true) {
        MqttPacketV3::Publish(p) => {
            assert_eq!(p.packet_id, Some(1));
            assert!(p.retain);
        }
        _ => panic!("expected PUBLISH"),
    }
    match subscribe_packet(&mut ids, "a/#", QoS::ExactlyOnce) {
        MqttPacketV3::Subscribe(s) => {
            assert_eq!(s.packet_id, 2);
            assert_eq!(s.filters.len(), 1);
            assert_eq!(s.filters[0].path, "a/#");
            assert_eq!(s.filters[0].qos, QoS::ExactlyOnce);
        }
        _ => panic!("expected SUBSCRIBE"),
    }
    match unsubscribe_packet(&mut ids, "a/#") {
        MqttPacketV3::Unsubscribe(u) => {
            assert_eq!(u.packet_id, 3);
            assert_eq!(u.filters, vec!["a/#".to_string()]);
        }
        _ => panic!("expected UNSUBSCRIBE"),
    }
}

#[test]
fn client_answers() {
    let qos1 = MqttPacketV3::Publish(PublishPacket {
        topic: "t".into(),
        payload: vec![1],
        qos: QoS::AtLeastOnce,
        retain: false,
        packet_id: Some(7),
    });
    match answer_packet(&qos1) {
        Some(MqttPacketV3::PubAck(PubAckPacket { packet_id })) => assert_eq!(packet_id, 7),
        _ => panic!("expected PUBACK"),
    }
    let qos2 = MqttPacketV3::Publish(PublishPacket {
        topic: "t".into(),
        payload: vec![],
        qos: QoS::ExactlyOnce,
        retain: false,
        packet_id: Some(8),
    });
    assert!(answer_packet(&qos2).is_none());
    assert!(answer_packet(&MqttPacketV3::PingResp(PingRespPacket)).is_none());
}

#[test]
fn connack_decides_connection() {
    let ok = MqttPacketV3::ConnAck(ConnAckPacket { session_present: false, return_code: ConnectReturnCode::Accepted });
    assert!(connack_result(&ok).is_ok());
    let refused = MqttPacketV3::ConnAck(ConnAckPacket { session_present: false, return_code: ConnectReturnCode::NotAuthorized });
    assert_eq!(connack_result(&refused).unwrap_err(), ConnectFailure::Refused(ConnectReturnCode::NotAuthorized));
    assert_eq!(connack_result(&MqttPacketV3::PingResp(PingRespPacket)).unwrap_err(), ConnectFailure::NotConnAck);
}

#[test]
fn reads_close_overflow_or_continue() {
    assert_eq!(read_outcome(0, 5), ReadOutcome::Closed);
    assert_eq!(read_outcome(0, MAX_PACKET_SIZE + 1), ReadOutcome::Closed);
    assert_eq!(read_outcome(3, MAX_PACKET_SIZE + 1), ReadOutcome::TooLarge);
    assert_eq!(read_outcome(3, MAX_PACKET_SIZE), ReadOutcome::Continue);
    assert_eq!(MAX_PACKET_SIZE, 10_485_760);
}

#[test]
fn qos_arguments_parse_as_u8() {
    let qos_of = |line: &str| match parse_shell_command(line) {
        ShellCommand::Subscribe { qos, .. } => Ok(qos),
        ShellCommand::InvalidQos(v) => Err(v),
        other => panic!("unexpected {other:?}"),
    };
    assert_eq!(qos_of("sub a -q +2"), Ok(QoS::ExactlyOnce));
    assert_eq!(qos_of("sub a -q 001"), Ok(QoS::AtLeastOnce));
    assert_eq!(qos_of("sub a -q 255"), Err(255));
    // Out of range, signed or not a number: read as 0.
    assert_eq!(qos_of("sub a -q 256"), Ok(QoS::AtMostOnce));
    assert_eq!(qos_of("sub a -q -1"), Ok(QoS::AtMostOnce));
    assert_eq!(qos_of("sub a -q +"), Ok(QoS::AtMostOnce));
}

#[test]
fn unicode_whitespace_separates_words() {
    assert_eq!(words("a\u{3000}b\u{85}c\u{a0}d"), vec!["a", "b", "c", "d"]);
    assert_eq!(words("a\u{200b}b"), vec!["a\u{200b}b"]);
}
