use atom_mqtt::auth::{AclChecker, Authenticator};
use atom_mqtt::broker::{BrokerAction, BrokerCore, BrokerMessage};
use atom_mqtt::codec::{encode_packet, MqttPacket};
use atom_mqtt::common::{ProtocolVersion, QoS};
use atom_mqtt::config::{AuthMethod, BrokerConfig};
use atom_mqtt::persistence::PersistEvent;
use atom_mqtt::server::{
    accept_connection, accept_ws_connection, close_connection, generate_client_id, process_packet, route_disconnect,
    route_publish, ConnectDecision,
};
use atom_mqtt::v3::types::{
    ConnAckPacket, ConnectPacket, ConnectReturnCode, MqttPacketV3, PingReqPacket, PublishPacket, SubAckReturnCode,
    SubscribeFilter, SubscribePacket, UnsubscribePacket, Will,
};

fn connect(client_id: &str, username: Option<&str>, password: Option<&str>, will: Option<Will>) -> MqttPacket {
    MqttPacket::V311(MqttPacketV3::Connect(ConnectPacket {
        client_id: client_id.to_string(),
        clean_session: true,
        keep_alive: 30,
        will,
        username: username.map(|s| s.to_string()),
        password: password.map(|s| s.to_string()),
    }))
}

fn publish(topic: &str, payload: &[u8], qos: QoS, retain: bool, packet_id: Option<u16>) -> MqttPacket {
    MqttPacket::V311(MqttPacketV3::Publish(PublishPacket {
        topic: topic.to_string(),
        payload: payload.to_vec(),
        qos,
        retain,
        packet_id,
    }))
}

fn subscribe(id: u16, filters: &[(&str, QoS)]) -> MqttPacket {
    MqttPacket::V311(MqttPacketV3::Subscribe(SubscribePacket {
        packet_id: id,
        filters: filters.iter().map(|(p, q)| SubscribeFilter { path: p.to_string(), qos: *q }).collect(),
    }))
}

fn open_acl() -> AclChecker {
    AclChecker::new("", None)
}

#[test]
fn anonymous_client_is_accepted() {
    let mut core = BrokerCore::new();
    let config = BrokerConfig::default();
    let auth = Authenticator::new(&AuthMethod::Disabled, "");
    match accept_connection(&mut core, &config, &auth, &connect("c1", None, None, None)) {
        ConnectDecision::Accepted { client_id, username, version, clean_session, connack, actions } => {
            assert_eq!(client_id, "c1");
            assert_eq!(username, "anonymous");
            assert_eq!(version, ProtocolVersion::V311);
            assert!(clean_session);
            match connack {
                MqttPacket::V311(MqttPacketV3::ConnAck(ConnAckPacket { session_present, return_code })) => {
                    assert!(!session_present);
                    assert_eq!(return_code, ConnectReturnCode::Accepted);
                }
                _ => panic!("expected CONNACK"),
            }
            assert_eq!(actions.len(), 1);
            assert!(matches!(&actions[0], BrokerAction::Persist(PersistEvent::SaveSession { protocol_version: 4, .. })));
        }
        _ => panic!("expected acceptance"),
    }
    assert!(core.sessions.get("c1").unwrap().connected);
    assert_eq!(core.metrics.clients_connected, 1);
    assert_eq!(core.metrics.clients_total, 1);
}

#[test]
fn anonymous_client_is_refused_when_not_allowed() {
    let mut core = BrokerCore::new();
    let mut config = BrokerConfig::default();
    config.allow_anonymous = false;
    let auth = Authenticator::new(&AuthMethod::Disabled, "");
    match accept_connection(&mut core, &config, &auth, &connect("c1", None, None, None)) {
        ConnectDecision::Rejected { connack } => match connack {
            MqttPacket::V311(MqttPacketV3::ConnAck(ack)) => assert_eq!(ack.return_code, ConnectReturnCode::NotAuthorized),
            _ => panic!("expected CONNACK"),
        },
        _ => panic!("expected rejection"),
    }
    assert!(core.sessions.is_empty());
    assert_eq!(core.metrics.clients_connected, 0);
}

#[test]
fn file_credentials_are_checked() {
    let mut core = BrokerCore::new();
    let mut config = BrokerConfig::default();
    config.allow_anonymous = false;
    let auth = Authenticator::new(&AuthMethod::File { path: "passwd".into() }, "alice:secret\nbob:pw\n");
    match accept_connection(&mut core, &config, &auth, &connect("c1", Some("alice"), Some("wrong"), None)) {
        ConnectDecision::Rejected { connack } => match connack {
            MqttPacket::V311(MqttPacketV3::ConnAck(ack)) => {
                assert_eq!(ack.return_code, ConnectReturnCode::NotAuthorized)
            }
            _ => panic!("expected CONNACK"),
        },
        _ => panic!("expected rejection"),
    }
    match accept_connection(&mut core, &config, &auth, &connect("c1", Some("alice"), Some("secret"), None)) {
        ConnectDecision::Accepted { username, .. } => assert_eq!(username, "alice"),
        _ => panic!("expected acceptance"),
    }
}

#[test]
fn empty_client_id_is_assigned() {
    let mut core = BrokerCore::new();
    let config = BrokerConfig::default();
    let auth = Authenticator::new(&AuthMethod::Disabled, "");
    match accept_connection(&mut core, &config, &auth, &connect("", None, None, None)) {
        ConnectDecision::Accepted { client_id, .. } => assert_eq!(client_id, "anonymous_1"),
        _ => panic!("expected acceptance"),
    }
    assert_eq!(generate_client_id(&mut core), "anonymous_2");
    assert_eq!(core.next_client_id, 3);
}

#[test]
fn not_connect_is_dropped() {
    let mut core = BrokerCore::new();
    let config = BrokerConfig::default();
    let auth = Authenticator::new(&AuthMethod::Disabled, "");
    let ping = MqttPacket::V311(MqttPacketV3::PingReq(PingReqPacket));
    assert!(matches!(accept_connection(&mut core, &config, &auth, &ping), ConnectDecision::NotConnect));
    assert!(matches!(accept_ws_connection(&mut core, &config, &auth, &ping), ConnectDecision::NotConnect));
}

#[test]
fn will_is_stored_and_delivered_on_disconnect() {
    let mut core = BrokerCore::new();
    let config = BrokerConfig::default();
    let auth = Authenticator::new(&AuthMethod::Disabled, "");
    let will = Will { topic: "status/c1".into(), message: b"offline".to_vec(), qos: QoS::AtMostOnce, retain: true };
    assert!(matches!(
        accept_connection(&mut core, &config, &auth, &connect("c1", None, None, Some(will))),
        ConnectDecision::Accepted { .. }
    ));
    assert!(core.wills.contains_key("c1"));
    // Another client listens for it.
    process_packet(&mut core, &open_acl(), &subscribe(1, &[("status/#", QoS::AtMostOnce)]), "c2", "anonymous");
    let msg = close_connection(&mut core, "c1", false);
    assert!(matches!(msg, BrokerMessage::ClientDisconnected { ref client_id, clean_session: false } if client_id == "c1"));
    assert!(!core.sessions.get("c1").unwrap().connected);
    assert_eq!(core.metrics.clients_connected, 0);
    let actions = route_disconnect(&mut core, "c1", false);
    assert!(actions.iter().any(|a| matches!(a, BrokerAction::Deliver { client_id, .. } if client_id == "c2")));
    assert!(actions.iter().any(|a| matches!(a, BrokerAction::Persist(PersistEvent::RemoveWill(c)) if c == "c1")));
    assert!(!core.wills.contains_key("c1"));
    // The will was retained.
    assert!(core.retained.contains_key("status/c1"));
    // The session stays: the client asked for a persistent session.
    assert!(core.sessions.contains_key("c1"));
}

#[test]
fn clean_disconnect_forgets_session_and_subscriptions() {
    let mut core = BrokerCore::new();
    let acl = open_acl();
    let config = BrokerConfig::default();
    let auth = Authenticator::new(&AuthMethod::Disabled, "");
    accept_connection(&mut core, &config, &auth, &connect("c1", None, None, None));
    process_packet(&mut core, &acl, &subscribe(1, &[("a/b", QoS::AtLeastOnce)]), "c1", "anonymous");
    assert_eq!(core.metrics.subscriptions_active, 1);
    close_connection(&mut core, "c1", true);
    let actions = route_disconnect(&mut core, "c1", true);
    assert!(actions.iter().any(|a| matches!(a, BrokerAction::Persist(PersistEvent::RemoveSession(c)) if c == "c1")));
    assert!(!core.sessions.contains_key("c1"));
    assert_eq!(core.subscriptions.count(), 0);
}

#[test]
fn publish_is_acknowledged_by_qos() {
    let mut core = BrokerCore::new();
    let acl = open_acl();
    let out = process_packet(&mut core, &acl, &publish("t", b"x", QoS::AtMostOnce, false, None), "c1", "u");
    assert!(out.response.is_none());
    assert_eq!(out.actions.len(), 1);
    assert!(matches!(&out.actions[0], BrokerAction::Route(BrokerMessage::Publish { source_client, .. }) if source_client == "c1"));
    let out = process_packet(&mut core, &acl, &publish("t", b"x", QoS::AtLeastOnce, false, Some(5)), "c1", "u");
    assert!(matches!(out.response, Some(MqttPacket::V311(MqttPacketV3::PubAck(p))) if p.packet_id == 5));
    let out = process_packet(&mut core, &acl, &publish("t", b"x", QoS::ExactlyOnce, false, Some(6)), "c1", "u");
    assert!(matches!(out.response, Some(MqttPacket::V311(MqttPacketV3::PubRec(p))) if p.packet_id == 6));
    assert_eq!(core.metrics.messages_received, 3);
    assert_eq!(core.metrics.bytes_received, 3);
}

#[test]
fn retained_publish_is_kept_and_cleared() {
    let mut core = BrokerCore::new();
    let acl = open_acl();
    process_packet(&mut core, &acl, &publish("r/t", b"v1", QoS::AtLeastOnce, true, Some(1)), "c1", "u");
    assert_eq!(core.retained.get("r/t").unwrap().payload, b"v1".to_vec());
    process_packet(&mut core, &acl, &publish("r/t", b"v2", QoS::AtMostOnce, true, None), "c1", "u");
    assert_eq!(core.retained.len(), 1);
    assert_eq!(core.retained.get("r/t").unwrap().payload, b"v2".to_vec());
    // An empty retained payload clears it.
    let out = process_packet(&mut core, &acl, &publish("r/t", b"", QoS::AtMostOnce, true, None), "c1", "u");
    assert!(!core.retained.contains_key("r/t"));
    assert!(out.actions.iter().any(|a| matches!(a, BrokerAction::Persist(PersistEvent::RemoveRetained(t)) if t == "r/t")));
}

#[test]
fn subscribe_gets_suback_and_retained_messages() {
    let mut core = BrokerCore::new();
    let acl = open_acl();
    process_packet(&mut core, &acl, &publish("sensor/1", b"20", QoS::AtMostOnce, true, None), "p", "u");
    let out = process_packet(
        &mut core,
        &acl,
        &subscribe(9, &[("sensor/+", QoS::AtLeastOnce), ("x/#", QoS::ExactlyOnce)]),
        "s",
        "u",
    );
    match out.response {
        Some(MqttPacket::V311(MqttPacketV3::SubAck(ack))) => {
            assert_eq!(ack.packet_id, 9);
            assert_eq!(ack.return_codes, vec![SubAckReturnCode::SuccessQoS1, SubAckReturnCode::SuccessQoS2]);
        }
        _ => panic!("expected SUBACK"),
    }
    assert!(out.actions.iter().any(|a| matches!(a, BrokerAction::Deliver { client_id, .. } if client_id == "s")));
    assert_eq!(core.subscriptions.count(), 2);
    let unsub = MqttPacket::V311(MqttPacketV3::Unsubscribe(UnsubscribePacket { packet_id: 10, filters: vec!["x/#".into()] }));
    let out = process_packet(&mut core, &acl, &unsub, "s", "u");
    assert!(matches!(out.response, Some(MqttPacket::V311(MqttPacketV3::UnsubAck(p))) if p.packet_id == 10));
    assert_eq!(core.subscriptions.count(), 1);
    assert_eq!(core.metrics.subscriptions_active, 1);
}

#[test]
fn acl_denies_publish_and_subscribe() {
    let mut core = BrokerCore::new();
    let acl = AclChecker::new("acl.conf", Some("user sensor topic publish sensor/#\n"));
    let out = process_packet(&mut core, &acl, &publish("home/x", b"1", QoS::AtLeastOnce, false, Some(1)), "c", "sensor");
    assert!(out.response.is_none());
    assert!(out.actions.is_empty());
    let out = process_packet(&mut core, &acl, &publish("sensor/x", b"1", QoS::AtLeastOnce, false, Some(2)), "c", "sensor");
    assert!(out.response.is_some());
    let out = process_packet(&mut core, &acl, &subscribe(3, &[("sensor/#", QoS::AtMostOnce)]), "c", "sensor");
    match out.response {
        Some(MqttPacket::V311(MqttPacketV3::SubAck(ack))) => assert_eq!(ack.return_codes, vec![SubAckReturnCode::Failure]),
        _ => panic!("expected SUBACK"),
    }
    assert_eq!(core.subscriptions.count(), 0);
}

#[test]
fn routing_reaches_matching_subscribers_only() {
    let mut core = BrokerCore::new();
    let acl = open_acl();
    process_packet(&mut core, &acl, &subscribe(1, &[("sensor/+/temp", QoS::AtMostOnce)]), "a", "u");
    process_packet(&mut core, &acl, &subscribe(2, &[("other/#", QoS::AtMostOnce)]), "b", "u");
    let actions = route_publish(&mut core, &"sensor/r1/temp".to_string(), &b"21".to_vec(), QoS::AtMostOnce, false, &"p".to_string());
    let delivered: Vec<&str> = actions
        .iter()
        .filter_map(|a| match a {
            BrokerAction::Deliver { client_id, .. } => Some(client_id.as_str()),
            _ => None,
        })
        .collect();
    assert_eq!(delivered, vec!["a"]);
    assert!(actions.iter().any(|a| matches!(a, BrokerAction::Notify { subscriber_id, notice } if subscriber_id == "a" && notice.kind == "publish")));
    assert_eq!(core.metrics.messages_published, 1);
    let none = route_publish(&mut core, &"nobody/here".to_string(), &vec![], QoS::AtMostOnce, false, &"p".to_string());
    assert!(none.is_empty());
}

#[test]
fn websocket_connection_is_authenticated() {
    let mut core = BrokerCore::new();
    let mut config = BrokerConfig::default();
    config.allow_anonymous = false;
    let auth = Authenticator::new(&AuthMethod::Disabled, "");
    // Anonymous access refused and no username: refused with 0x05, nothing stored.
    match accept_ws_connection(&mut core, &config, &auth, &connect("c", None, None, None)) {
        ConnectDecision::Rejected { connack } => {
            assert_eq!(encode_packet(&connack).unwrap().to_vec(), vec![0x20, 0x02, 0x00, 0x05]);
        }
        _ => panic!("expected rejection"),
    }
    assert!(!core.sessions.contains_key("c"));
    assert_eq!(core.metrics.clients_connected, 0);
    match accept_ws_connection(&mut core, &config, &auth, &connect("w1", Some("bob"), None, None)) {
        ConnectDecision::Accepted { client_id, username, actions, .. } => {
            assert_eq!(client_id, "w1");
            assert_eq!(username, "bob");
            assert_eq!(actions.len(), 1);
        }
        _ => panic!("expected acceptance"),
    }
    assert!(core.sessions.get("w1").unwrap().connected);
    assert_eq!(core.sessions.get("w1").unwrap().username.as_deref(), Some("bob"));
    assert_eq!(core.metrics.clients_connected, 1);
    // A second connection with the same id replaces the session.
    accept_ws_connection(&mut core, &config, &auth, &connect("w1", Some("bob"), None, None));
    assert_eq!(core.sessions.len(), 1);
}

#[test]
fn clean_disconnect_discards_the_will() {
    let mut core = BrokerCore::new();
    let config = BrokerConfig::default();
    let auth = Authenticator::new(&AuthMethod::Disabled, "");
    let acl = open_acl();
    let will = Will { topic: "status/c1".into(), message: b"gone".to_vec(), qos: QoS::AtMostOnce, retain: false };
    accept_connection(&mut core, &config, &auth, &connect("c1", None, None, Some(will)));
    process_packet(&mut core, &acl, &subscribe(1, &[("status/#", QoS::AtMostOnce)]), "c2", "u");
    let disconnect = MqttPacket::V311(MqttPacketV3::Disconnect(atom_mqtt::v3::types::DisconnectPacket));
    let out = process_packet(&mut core, &acl, &disconnect, "c1", "u");
    assert!(out.actions.iter().any(|a| matches!(a, BrokerAction::Persist(PersistEvent::RemoveWill(c)) if c == "c1")));
    assert!(!core.wills.contains_key("c1"));
    close_connection(&mut core, "c1", true);
    let actions = route_disconnect(&mut core, "c1", true);
    assert!(!actions.iter().any(|a| matches!(a, BrokerAction::Deliver { .. })));
}

#[test]
fn deliveries_follow_lookup_order() {
    let mut core = BrokerCore::new();
    let acl = open_acl();
    process_packet(&mut core, &acl, &subscribe(1, &[("s/+", QoS::AtMostOnce)]), "plus", "u");
    process_packet(&mut core, &acl, &subscribe(2, &[("s/x", QoS::AtMostOnce)]), "exact", "u");
    process_packet(&mut core, &acl, &subscribe(3, &[("s/#", QoS::AtMostOnce)]), "hash", "u");
    process_packet(&mut core, &acl, &subscribe(4, &[("#", QoS::AtMostOnce)]), "all", "u");
    let order: Vec<String> = core.subscriptions.lookup("s/x").into_iter().map(|s| s.client_id).collect();
    // The '#' subscriptions come first at each level, then the exact child, then '+'.
    assert_eq!(order, vec!["all", "hash", "exact", "plus"]);
    let actions = route_publish(&mut core, &"s/x".to_string(), &b"1".to_vec(), QoS::AtMostOnce, false, &"p".to_string());
    let delivered: Vec<String> = actions
        .iter()
        .filter_map(|a| match a {
            BrokerAction::Deliver { client_id, .. } => Some(client_id.clone()),
            _ => None,
        })
        .collect();
    assert_eq!(delivered, order);
}
