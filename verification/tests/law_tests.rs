use atom_mqtt::codec::{encode_packet, MqttCodec, MqttPacket};
use bytes::BytesMut;
use atom_mqtt::v3::types::{MqttPacketV3, PingReqPacket, PubAckPacket};
use atom_mqtt::v5::properties::{Properties, PropertyId, PropertyValue};
use atom_mqtt::auth::topic_matches_filter;
use atom_mqtt::broker::BrokerCore;
use atom_mqtt::common::{PacketType, QoS, TopicFilter};
use atom_mqtt::persistence::{PersistEvent, PersistWriter, WriterAction, WriterInput};
use atom_mqtt::subscription::SubscriptionTree;
use atom_mqtt::web::startup_cleanup;

const TOPICS: [&str; 7] = ["a", "a/b", "a/b/c", "sensor/room1/temp", "sensor", "/x", "x/"];
const FILTERS: [&str; 10] = ["#", "a/#", "a/+", "+/b/+", "sensor/+/temp", "sensor/#", "+", "a/b", "/+", "+/"];

#[test]
fn acl_and_subscription_filters_match_alike() {
    for t in TOPICS {
        for f in FILTERS {
            assert_eq!(topic_matches_filter(t, f), TopicFilter::new(f).matches(t), "topic {t} filter {f}");
        }
    }
}

#[test]
fn routing_finds_exactly_the_matching_filters() {
    for t in TOPICS {
        let mut tree = SubscriptionTree::new();
        for (i, f) in FILTERS.iter().enumerate() {
            tree.subscribe(&format!("c{i}"), f, QoS::AtMostOnce);
        }
        let mut routed: Vec<String> = tree.lookup(t).into_iter().map(|s| s.filter).collect();
        routed.sort();
        let mut expected: Vec<String> =
            FILTERS.iter().filter(|f| TopicFilter::new(f).matches(t)).map(|f| f.to_string()).collect();
        expected.sort();
        assert_eq!(routed, expected, "topic {t}");
    }
}

#[test]
fn wire_codes_round_trip() {
    for q in [QoS::AtMostOnce, QoS::AtLeastOnce, QoS::ExactlyOnce] {
        assert_eq!(QoS::from_u8(q.to_u8()), Some(q));
    }
    assert_eq!(QoS::from_u8(3), None);
    for b in 1u8..=15 {
        let t = PacketType::from_u8(b << 4).unwrap();
        assert_eq!(t.to_u8() >> 4, b);
    }
}

#[test]
fn writer_writes_every_event_once_in_order() {
    let mut w = PersistWriter::new();
    let mut written: Vec<String> = Vec::new();
    let mut take = |a: WriterAction, written: &mut Vec<String>| match a {
        WriterAction::Write(b) | WriterAction::WriteAndStop(b) => {
            for e in b {
                if let PersistEvent::RemoveSession(c) = e {
                    written.push(c);
                }
            }
        }
        WriterAction::Continue => {}
    };
    for i in 0..120 {
        let a = w.step(WriterInput::Event(PersistEvent::RemoveSession(format!("{i}"))));
        take(a, &mut written);
        if i % 37 == 0 {
            let a = w.step(WriterInput::Empty);
            take(a, &mut written);
            let a = w.step(WriterInput::Timeout);
            take(a, &mut written);
        }
    }
    let a = w.step(WriterInput::Event(PersistEvent::Shutdown));
    take(a, &mut written);
    let expected: Vec<String> = (0..120).map(|i| format!("{i}")).collect();
    assert_eq!(written, expected);
}

#[test]
fn a_fresh_broker_cleans_up_to_nothing() {
    let mut core = BrokerCore::new();
    let (actions, stale, orphans) = startup_cleanup(&mut core);
    assert!(actions.is_empty());
    assert_eq!((stale, orphans), (0, 0));
    assert_eq!(core.metrics.subscriptions_active, 0);
}

#[test]
fn subscription_count_follows_distinct_pairs() {
    let mut tree = SubscriptionTree::new();
    assert_eq!(tree.count(), 0);
    tree.subscribe("c", "a/b", QoS::AtMostOnce);
    tree.subscribe("c", "a/b", QoS::ExactlyOnce);
    assert_eq!(tree.count(), 1);
    assert_eq!(tree.all_subscriptions()[0].qos, QoS::ExactlyOnce);
    tree.subscribe("d", "a/b", QoS::AtLeastOnce);
    tree.subscribe("c", "x", QoS::AtLeastOnce);
    assert_eq!(tree.count(), 3);
    tree.unsubscribe("c", "nothing");
    assert_eq!(tree.count(), 3);
    tree.unsubscribe("c", "a/b");
    assert_eq!(tree.count(), 2);
    tree.unsubscribe_all("c");
    let left = tree.all_subscriptions();
    assert_eq!(left.len(), 1);
    assert_eq!((left[0].client_id.as_str(), left[0].filter.as_str(), left[0].qos), ("d", "a/b", QoS::AtLeastOnce));
}

#[test]
fn first_encoded_byte_names_the_packet_type() {
    for p in [
        MqttPacket::V311(MqttPacketV3::PingReq(PingReqPacket)),
        MqttPacket::V311(MqttPacketV3::PubAck(PubAckPacket { packet_id: 7 })),
    ] {
        let bytes = encode_packet(&p).unwrap();
        assert_eq!(PacketType::from_u8(bytes[0]), p.packet_type());
    }
}

#[test]
fn properties_get_first_and_add_agree() {
    let mut p = Properties::new();
    assert!(p.get_first(PropertyId::UserProperty).is_none());
    p.add(PropertyId::ReceiveMaximum, PropertyValue::TwoByteInteger(5));
    p.add(PropertyId::UserProperty, PropertyValue::Pair("a".into(), "1".into()));
    p.add(PropertyId::UserProperty, PropertyValue::Pair("b".into(), "2".into()));
    let all = p.get(PropertyId::UserProperty);
    assert_eq!(all.len(), 2);
    assert_eq!(Some(all[0]), p.get_first(PropertyId::UserProperty));
    assert_eq!(p.get(PropertyId::ReceiveMaximum).len(), 1);
}

#[test]
fn topic_filters_ignore_surrounding_whitespace() {
    let a = TopicFilter::new(" \t a/+ \u{3000}");
    let b = TopicFilter::new(a.as_str());
    assert_eq!(a.as_str(), "a/+");
    assert_eq!(b.as_str(), a.as_str());
    assert!(a.matches("a/x"));
}

#[test]
fn tree_order_is_kept_by_updates_and_removals() {
    let mut tree = SubscriptionTree::new();
    tree.subscribe("a", "x/y", QoS::AtMostOnce);
    tree.subscribe("b", "x/y", QoS::AtMostOnce);
    tree.subscribe("c", "x/z", QoS::AtMostOnce);
    let before: Vec<(String, String)> =
        tree.all_subscriptions().into_iter().map(|s| (s.client_id, s.filter)).collect();
    // A QoS change keeps the subscription in its place.
    tree.subscribe("a", "x/y", QoS::ExactlyOnce);
    let after = tree.all_subscriptions();
    let keys: Vec<(String, String)> = after.iter().map(|s| (s.client_id.clone(), s.filter.clone())).collect();
    assert_eq!(keys, before);
    assert_eq!(after[0].qos, QoS::ExactlyOnce);
    // Removal keeps the others in order.
    tree.unsubscribe("b", "x/y");
    let keys: Vec<(String, String)> =
        tree.all_subscriptions().into_iter().map(|s| (s.client_id, s.filter)).collect();
    let expected: Vec<(String, String)> = before.into_iter().filter(|k| k.0 != "b").collect();
    assert_eq!(keys, expected);
}

#[test]
fn codec_decode_reports_a_whole_bad_frame() {
    let codec = MqttCodec::new(1024);
    let mut buf = BytesMut::from(&[0x40u8, 0x01, 0x00][..]);
    assert!(codec.decode(&mut buf).is_err());
    // An incomplete frame still asks for more data.
    let mut partial = BytesMut::from(&[0x40u8, 0x02, 0x00][..]);
    assert!(codec.decode(&mut partial).unwrap().is_none());
}
