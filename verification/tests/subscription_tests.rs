use atom_mqtt::common::QoS;
use atom_mqtt::subscription::SubscriptionTree;

fn qos0() -> QoS {
    QoS::AtMostOnce
}
fn qos1() -> QoS {
    QoS::AtLeastOnce
}

#[test]
fn test_exact_match() {
    let mut tree = SubscriptionTree::new();
    tree.subscribe("client1", "sensor/temp", qos0());
    tree.subscribe("client2", "sensor/humidity", qos1());

    let results = tree.lookup("sensor/temp");
    assert_eq!(results.len(), 1);
    assert_eq!(results[0].client_id, "client1");
}

#[test]
fn test_plus_wildcard() {
    let mut tree = SubscriptionTree::new();
    tree.subscribe("client1", "sensor/+/temp", qos0());

    let results = tree.lookup("sensor/room1/temp");
    assert_eq!(results.len(), 1);
    assert_eq!(results[0].client_id, "client1");

    // Should not match different depth
    let results = tree.lookup("sensor/room1/other/temp");
    assert_eq!(results.len(), 0);
}

#[test]
fn test_hash_wildcard() {
    let mut tree = SubscriptionTree::new();
    tree.subscribe("client1", "sensor/#", qos0());

    let results = tree.lookup("sensor/temp");
    assert_eq!(results.len(), 1);

    let results = tree.lookup("sensor/room1/temp");
    assert_eq!(results.len(), 1);

    let results = tree.lookup("other/topic");
    assert_eq!(results.len(), 0);
}

#[test]
fn test_multiple_subscribers() {
    let mut tree = SubscriptionTree::new();
    tree.subscribe("client1", "topic", qos0());
    tree.subscribe("client2", "topic", qos1());

    let results = tree.lookup("topic");
    assert_eq!(results.len(), 2);
}

#[test]
fn test_unsubscribe() {
    let mut tree = SubscriptionTree::new();
    tree.subscribe("client1", "topic/a", qos0());
    tree.subscribe("client1", "topic/b", qos0());

    tree.unsubscribe("client1", "topic/a");
    let results = tree.lookup("topic/a");
    assert_eq!(results.len(), 0);

    let results = tree.lookup("topic/b");
    assert_eq!(results.len(), 1);
}

#[test]
fn test_unsubscribe_all() {
    let mut tree = SubscriptionTree::new();
    tree.subscribe("client1", "topic/a", qos0());
    tree.subscribe("client1", "topic/b", qos0());
    tree.subscribe("client2", "topic/a", qos0());

    tree.unsubscribe_all("client1");
    assert_eq!(tree.lookup("topic/a").len(), 1);
    assert_eq!(tree.lookup("topic/b").len(), 0);
}

#[test]
fn test_mixed_wildcards() {
    let mut tree = SubscriptionTree::new();
    tree.subscribe("client1", "+/+/temp", qos0());

    let results = tree.lookup("sensor/room1/temp");
    assert_eq!(results.len(), 1);

    // Must match exactly 3 levels
    let results = tree.lookup("sensor/temp");
    assert_eq!(results.len(), 0);
}

#[test]
fn resubscribing_replaces_the_qos() {
    let mut tree = SubscriptionTree::new();
    tree.subscribe("c", "a/b", qos0());
    tree.subscribe("c", "a/b", qos1());
    assert_eq!(tree.count(), 1);
    let all = tree.all_subscriptions();
    assert_eq!(all.len(), 1);
    assert_eq!(all[0].qos, QoS::AtLeastOnce);
}

#[test]
fn hash_matches_the_parent_level_too() {
    let mut tree = SubscriptionTree::new();
    tree.subscribe("c", "sensor/#", qos0());
    assert_eq!(tree.lookup("sensor").len(), 1);
}

#[test]
fn count_follows_changes() {
    let mut tree = SubscriptionTree::new();
    assert_eq!(tree.count(), 0);
    tree.subscribe("a", "x", qos0());
    tree.subscribe("b", "x", qos0());
    tree.subscribe("a", "y/#", qos0());
    assert_eq!(tree.count(), 3);
    tree.unsubscribe("a", "x");
    assert_eq!(tree.count(), 2);
    tree.unsubscribe("zzz", "x");
    assert_eq!(tree.count(), 2);
}
