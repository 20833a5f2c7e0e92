use atom_mqtt::broker::{BrokerAction, BrokerCore, BrokerMessage};
use atom_mqtt::common::{ProtocolVersion, QoS};
use atom_mqtt::persistence::PersistEvent;
use atom_mqtt::retention::RetainedMessage;
use atom_mqtt::session::SessionState;
use atom_mqtt::web::{
    api_request_authorized, client_detail, connected_clients, credentials_match, decoded_credentials_match,
    disconnect_client, restore_state, retained_summaries, startup_cleanup, subscription_summaries, web_publish, PublishRequest, broker_info, version_text, static_file,
    ws_cleanup, ws_command, ws_text_command, WsReply,
};
use atom_mqtt::will::WillMessage;

fn session(id: &str, clean: bool, connected: bool, username: Option<&str>) -> SessionState {
    let mut s = SessionState::new(id.to_string(), ProtocolVersion::V311, clean, 60, username.map(|u| u.to_string()));
    s.connected = connected;
    s
}

#[test]
fn api_access_rules() {
    // "admin:secret" in standard base64.
    let good = Some("Basic YWRtaW46c2VjcmV0");
    assert!(api_request_authorized("/index.html", true, None, "admin", "secret"));
    assert!(api_request_authorized("/api/metrics", false, None, "admin", "secret"));
    assert!(api_request_authorized("/api/login", true, None, "admin", "secret"));
    assert!(!api_request_authorized("/api/metrics", true, None, "admin", "secret"));
    assert!(api_request_authorized("/api/metrics", true, good, "admin", "secret"));
    assert!(!api_request_authorized("/api/metrics", true, good, "admin", "other"));
    assert!(!api_request_authorized("/api/metrics", true, Some("Bearer YWRtaW46c2VjcmV0"), "admin", "secret"));
    assert!(!api_request_authorized("/api/metrics", true, Some("Basic !!notbase64"), "admin", "secret"));
}

#[test]
fn credential_comparison() {
    assert!(credentials_match("a:b", "a", "b"));
    assert!(!credentials_match("a:b:", "a", "b"));
    assert!(decoded_credentials_match(Some(b"u:p".as_slice()), "u", "p"));
    assert!(!decoded_credentials_match(Some(b"u:q".as_slice()), "u", "p"));
    assert!(!decoded_credentials_match(None, "u", "p"));
}

#[test]
fn client_reports() {
    let mut core = BrokerCore::new();
    restore_state(
        &mut core,
        vec![session("a", false, true, Some("alice")), session("b", false, false, None), session("c", false, true, None)],
        vec![],
        vec![],
        vec![],
    );
    let clients = connected_clients(&core);
    let mut found: Vec<(String, String)> = clients.iter().map(|c| (c.client_id.clone(), c.username.clone())).collect();
    found.sort();
    assert_eq!(found, vec![("a".to_string(), "alice".to_string()), ("c".to_string(), String::new())]);
    let b = client_detail(&core, "b").unwrap();
    assert!(!b.connected);
    assert_eq!(b.protocol_version, "V311");
    assert_eq!(b.keep_alive, 60);
    assert!(!b.created_at.is_empty());
    assert!(client_detail(&core, "zzz").is_none());
    assert!(disconnect_client(&mut core, "a"));
    assert!(!disconnect_client(&mut core, "zzz"));
    assert_eq!(connected_clients(&core).len(), 1);
}

#[test]
fn subscription_and_retained_reports() {
    let mut core = BrokerCore::new();
    core.subscriptions.subscribe("c1", "a/#", QoS::AtLeastOnce);
    let subs = subscription_summaries(&core);
    assert_eq!(subs.len(), 1);
    assert_eq!(subs[0].client_id, "c1");
    assert_eq!(subs[0].filter, "a/#");
    assert_eq!(subs[0].qos, "QoS1");
    let long = vec![b'x'; 80];
    restore_state(&mut core, vec![], vec![], vec![RetainedMessage::new("t".into(), long, QoS::ExactlyOnce)], vec![]);
    let r = retained_summaries(&core);
    assert_eq!(r.len(), 1);
    assert_eq!(r[0].payload_size, 80);
    assert_eq!(r[0].payload_preview.len(), 50);
    assert_eq!(r[0].qos, "QoS2");
}

#[test]
fn publishing_from_the_web() {
    let mut core = BrokerCore::new();
    core.subscriptions.subscribe("s1", "news/+", QoS::AtMostOnce);
    core.subscriptions.subscribe("s2", "#", QoS::AtMostOnce);
    let (actions, count) = web_publish(&mut core, &PublishRequest { topic: "news/today".into(), payload: "hello".into(), qos: 7, retain: true });
    assert_eq!(count, 2);
    assert_eq!(actions.len(), 1);
    match &actions[0] {
        BrokerAction::Route(BrokerMessage::Publish { topic, payload, qos, retain, source_client }) => {
            assert_eq!(topic, "news/today");
            assert_eq!(payload, &b"hello".to_vec());
            assert_eq!(*qos, QoS::AtMostOnce);
            assert!(*retain);
            assert_eq!(source_client, "web-ui");
        }
        _ => panic!("expected a routed message"),
    }
    assert!(core.retained.contains_key("news/today"));
    assert_eq!(core.metrics.messages_published, 1);
    // An empty retained payload is not kept.
    web_publish(&mut core, &PublishRequest { topic: "empty".into(), payload: "".into(), qos: 1, retain: true });
    assert!(!core.retained.contains_key("empty"));
}

#[test]
fn web_subscriber_commands() {
    let mut core = BrokerCore::new();
    let mut active: Vec<String> = Vec::new();
    match ws_command(&mut core, "webui-sub-1", &mut active, "subscribe", "a/#", 1) {
        WsReply::Subscribed { topic_filter, qos } => {
            assert_eq!(topic_filter, "a/#");
            assert_eq!(qos, 1);
        }
        other => panic!("unexpected {other:?}"),
    }
    ws_command(&mut core, "webui-sub-1", &mut active, "subscribe", "a/#", 9);
    assert_eq!(active, vec!["a/#".to_string()]);
    assert_eq!(core.subscriptions.count(), 1);
    assert_eq!(core.subscriptions.all_subscriptions()[0].qos, QoS::AtMostOnce);
    match ws_command(&mut core, "webui-sub-1", &mut active, "subscribe", "", 0) {
        WsReply::Error(m) => assert_eq!(m, "topic_filter required"),
        other => panic!("unexpected {other:?}"),
    }
    assert!(matches!(ws_command(&mut core, "webui-sub-1", &mut active, "ping", "", 0), WsReply::Pong));
    match ws_command(&mut core, "webui-sub-1", &mut active, "dance", "", 0) {
        WsReply::Error(m) => assert_eq!(m, "unknown command"),
        other => panic!("unexpected {other:?}"),
    }
    assert!(matches!(ws_command(&mut core, "webui-sub-1", &mut active, "unsubscribe", "", 0), WsReply::Silent));
    ws_command(&mut core, "webui-sub-1", &mut active, "subscribe", "b", 2);
    assert!(matches!(
        ws_command(&mut core, "webui-sub-1", &mut active, "unsubscribe", "a/#", 0),
        WsReply::Unsubscribed { .. }
    ));
    assert_eq!(active, vec!["b".to_string()]);
    assert_eq!(core.subscriptions.count(), 1);
    ws_cleanup(&mut core, "webui-sub-1", &active);
    assert_eq!(core.subscriptions.count(), 0);
}

#[test]
fn restore_keeps_the_last_of_each_key() {
    let mut core = BrokerCore::new();
    let will = WillMessage {
        client_id: "c1".into(),
        topic: "w".into(),
        payload: vec![],
        qos: QoS::AtMostOnce,
        retain: false,
        delay_interval: 0,
        created_at: std::time::Instant::now(),
    };
    restore_state(
        &mut core,
        vec![session("c1", false, false, None), session("c1", true, false, Some("x"))],
        vec![("c1".into(), "a".into(), QoS::AtMostOnce), ("c1".into(), "a".into(), QoS::ExactlyOnce)],
        vec![
            RetainedMessage::new("t".into(), vec![1], QoS::AtMostOnce),
            RetainedMessage::new("t".into(), vec![2], QoS::AtMostOnce),
        ],
        vec![will],
    );
    assert_eq!(core.sessions.len(), 1);
    assert!(core.sessions.get("c1").unwrap().clean_session);
    assert_eq!(core.subscriptions.count(), 1);
    assert_eq!(core.subscriptions.all_subscriptions()[0].qos, QoS::ExactlyOnce);
    assert_eq!(core.retained.len(), 1);
    assert_eq!(core.retained.get("t").unwrap().payload, vec![2]);
    assert_eq!(core.wills.len(), 1);
}

#[test]
fn startup_cleanup_forgets_stale_and_orphaned_clients() {
    let mut core = BrokerCore::new();
    restore_state(
        &mut core,
        vec![session("clean", true, false, None), session("kept", false, false, None)],
        vec![
            ("clean".into(), "a".into(), QoS::AtMostOnce),
            ("kept".into(), "b".into(), QoS::AtMostOnce),
            ("ghost".into(), "c".into(), QoS::AtMostOnce),
            ("ghost".into(), "d".into(), QoS::AtMostOnce),
        ],
        vec![],
        vec![],
    );
    let (actions, stale, orphans) = startup_cleanup(&mut core);
    assert_eq!(stale, 1);
    assert_eq!(orphans, 1);
    assert!(!core.sessions.contains_key("clean"));
    assert!(core.sessions.contains_key("kept"));
    let left = core.subscriptions.all_subscriptions();
    assert_eq!(left.len(), 1);
    assert_eq!(left[0].client_id, "kept");
    assert_eq!(core.metrics.subscriptions_active, 1);
    assert_eq!(actions.len(), 3);
    assert!(matches!(&actions[0], BrokerAction::Persist(PersistEvent::RemoveClientSubscriptions(c)) if c == "clean"));
    assert!(matches!(&actions[1], BrokerAction::Persist(PersistEvent::RemoveSession(c)) if c == "clean"));
    assert!(matches!(&actions[2], BrokerAction::Persist(PersistEvent::RemoveClientSubscriptions(c)) if c == "ghost"));
}

#[test]
fn broker_info_reports_configuration() {
    let mut config = atom_mqtt::config::BrokerConfig::default();
    config.tcp_port = 1999;
    let info = broker_info(&config, "1.2.3", 42);
    assert_eq!(info.version, "1.2.3");
    assert_eq!(info.name, "AtomMQTT Broker");
    assert_eq!(info.uptime_seconds, 42);
    assert_eq!(info.config.tcp_port, 1999);
    assert_eq!(info.config.tcp_host, config.tcp_host);
    assert_eq!(info.config.web_port, config.web_port);
    assert_eq!(info.config.max_packet_size, config.max_packet_size);
    assert_eq!(info.config.allow_anonymous, config.allow_anonymous);
    assert_eq!(info.protocol_versions, vec!["MQTT 3.1.1".to_string(), "MQTT 5.0".to_string()]);
    assert_eq!(version_text(ProtocolVersion::V5), "V5");
    assert_eq!(version_text(ProtocolVersion::V311), "V311");
}

#[test]
fn web_subscriber_text_commands() {
    let mut core = BrokerCore::new();
    let mut active: Vec<String> = Vec::new();
    match ws_text_command(&mut core, "webui-sub-2", &mut active, r#"{"type":"subscribe","topic_filter":"x/+","qos":2}"#) {
        WsReply::Subscribed { topic_filter, qos } => {
            assert_eq!(topic_filter, "x/+");
            assert_eq!(qos, 2);
        }
        other => panic!("unexpected {other:?}"),
    }
    assert_eq!(core.subscriptions.all_subscriptions()[0].qos, QoS::ExactlyOnce);
    assert_eq!(active, vec!["x/+".to_string()]);
    match ws_text_command(&mut core, "webui-sub-2", &mut active, "not json") {
        WsReply::Error(m) => assert_eq!(m, "invalid JSON"),
        other => panic!("unexpected {other:?}"),
    }
    // A missing type reads as empty: an unknown command.
    match ws_text_command(&mut core, "webui-sub-2", &mut active, r#"{"topic_filter":"x/+"}"#) {
        WsReply::Error(m) => assert_eq!(m, "unknown command"),
        other => panic!("unexpected {other:?}"),
    }
    // A qos that is not a number reads as 0.
    ws_text_command(&mut core, "webui-sub-2", &mut active, r#"{"type":"subscribe","topic_filter":"y","qos":"high"}"#);
    assert!(core.subscriptions.all_subscriptions().iter().any(|s| s.filter == "y" && s.qos == QoS::AtMostOnce));
    assert!(matches!(
        ws_text_command(&mut core, "webui-sub-2", &mut active, r#"{"type":"ping"}"#),
        WsReply::Pong
    ));
    ws_text_command(&mut core, "webui-sub-2", &mut active, r#"{"type":"unsubscribe","topic_filter":"x/+"}"#);
    assert_eq!(active, vec!["y".to_string()]);
}

#[test]
fn static_file_paths_and_types() {
    assert_eq!(static_file("/"), ("index.html".to_string(), "text/html".to_string()));
    assert_eq!(static_file(""), ("index.html".to_string(), "text/html".to_string()));
    assert_eq!(static_file("///js/app.js"), ("js/app.js".to_string(), "text/javascript".to_string()));
    assert_eq!(static_file("/style.css"), ("style.css".to_string(), "text/css".to_string()));
    assert_eq!(static_file("/data.unknownext"), ("data.unknownext".to_string(), "application/octet-stream".to_string()));
}
