//! The broker's decisions: decoding a connection's packets, what each
//! packet does to the broker's data and what it is answered, how a
//! connection is accepted and closed, and how the background router
//! delivers messages and wills.

use vstd::prelude::*;
use bytes::BytesMut;
use crate::common::{
    QoS, ProtocolVersion, PacketType, MqttError, MqttResult, Fault, invalid, spec_decode_varint,
    decode_remaining_length, lemma_varint_decoded_bounds, append_bytes, topic_levels,
    filter_levels_match, TopicFilter,
};
use crate::text::{buffer_bytes, buffer_as_slice, trimmed};
use crate::codec::{MqttPacket, MqttPacketView, encode_packet, spec_encode};
use crate::config::BrokerConfig;
use crate::auth::{AclChecker, spec_granted, Authenticator, AuthResult, AuthOutcome, spec_authenticate, opt_str_view};
use crate::session::SessionState;
use crate::will::WillMessage;
use crate::broker::{
    SessionView, WillView, sessions_view, wills_view, session_view, will_view, spec_mark_disconnected,
};
use crate::subscription::{subs_view, view_keys_distinct, trie_match, Subscription};
use crate::broker::WebNotice;
use crate::broker::{
    BrokerCore, BrokerAction, BrokerMessage, ActionView, MessageView, actions_view, push_action,
    append_actions, RetainedView, retained_view, retained_set, retained_remove,
    retained_listing, retained_items_view,
};
use crate::persistence::{PersistEvent, EventView, spec_qos_to_db, qos_to_db};
use crate::retention::RetainedMessage;
use crate::subscription::{SubscriptionView, without_key};
use crate::v3;
use crate::v5;
use crate::v3::types::{MqttPacketV3, PacketV3View, PublishView};
use crate::v5::types::{MqttPacketV5, PacketV5View, ReasonCode};

verus! {

// ==================== decoding a connection's packets ====================

/// Decoding the first packet of a connection, its version read from the
/// protocol level byte (4 or 5; others are refused); a whole packet longer
/// than `max` bytes is refused as too large.
pub open spec fn spec_decode_first(max: usize, buf: Seq<u8>) -> Result<Option<MqttPacketView>, Fault> {
    if buf.len() < 2 {
        Ok(None)
    } else {
        match spec_decode_varint(buf.subrange(1, buf.len() as int)) {
            None => Err(Fault::RemainingLength),
            Some((rem, lb)) => {
                let total = 1 + lb + rem;
                if buf.len() < total {
                    Ok(None)
                } else if total > max {
                    Err(Fault::TooLarge(total as usize))
                } else if buf.len() - (1 + lb) < 8 {
                    Err(Fault::Invalid)
                } else {
                    let level = buf[1 + lb as int + 6];
                    if level == 4 {
                        match v3::codec::spec_decode_v3(buf) {
                            Err(e) => Err(e),
                            Ok(None) => Err(Fault::Invalid),
                            Ok(Some((p, _))) => Ok(Some(MqttPacketView::V311(p))),
                        }
                    } else if level == 5 {
                        match v5::codec::spec_decode_v5(buf) {
                            Err(e) => Err(e),
                            Ok(None) => Err(Fault::Invalid),
                            Ok(Some((p, _))) => Ok(Some(MqttPacketView::V5(p))),
                        }
                    } else {
                        Err(Fault::Version(level))
                    }
                }
            },
        }
    }
}

/// Decode the first packet (CONNECT) to determine the version, refusing a
/// packet longer than the configured `max_packet_size`. The buffer is left
/// as it was.
pub fn decode_first_packet(buf: &mut BytesMut, config: &BrokerConfig) -> (r: MqttResult<Option<MqttPacket>>)
    ensures
        *final(buf) == *old(buf),
        match r {
            Ok(Some(p)) => spec_decode_first(config.max_packet_size, buffer_bytes(*old(buf))) == Ok::<Option<MqttPacketView>, Fault>(Some(p@)),
            Ok(None) => spec_decode_first(config.max_packet_size, buffer_bytes(*old(buf))) == Ok::<Option<MqttPacketView>, Fault>(None),
            Err(e) => spec_decode_first(config.max_packet_size, buffer_bytes(*old(buf))) == Err::<Option<MqttPacketView>, Fault>(e.fault()),
        },
{
    let bytes = buffer_as_slice(buf);
    if bytes.len() < 2 {
        return Ok(None);
    }

    let (remaining_len, len_bytes) = match decode_remaining_length(&bytes[1..bytes.len()]) {
        Ok(x) => x,
        Err(e) => return Err(e),
    };
    proof {
        lemma_varint_decoded_bounds(bytes@.subrange(1, bytes@.len() as int));
    }
    let total_len = 1 + len_bytes + remaining_len;
    if bytes.len() < total_len {
        return Ok(None);
    }
    if total_len > config.max_packet_size {
        return Err(MqttError::PacketTooLarge(total_len));
    }

    // Check protocol version
    if bytes.len() - (1 + len_bytes) < 8 {
        return Err(invalid("CONNECT packet too short"));
    }

    let protocol_level = bytes[1 + len_bytes + 6];  // After: name_len(2) + "MQTT"(4)
    if protocol_level == 4 {
        match v3::codec::decode_packet(buf) {
            Ok(Some((packet, _))) => Ok(Some(MqttPacket::V311(packet))),
            Ok(None) => Err(invalid("Failed to decode CONNECT")),
            Err(e) => Err(e),
        }
    } else if protocol_level == 5 {
        match v5::codec::decode_packet(buf) {
            Ok(Some((packet, _))) => Ok(Some(MqttPacket::V5(packet))),
            Ok(None) => Err(invalid("Failed to decode CONNECT")),
            Err(e) => Err(e),
        }
    } else {
        Err(MqttError::UnsupportedVersion(protocol_level))
    }
}

/// Decoding a packet of a connection whose version is known.
pub open spec fn spec_decode_by_version(buf: Seq<u8>, version: ProtocolVersion) -> Result<Option<(MqttPacketView, nat)>, Fault> {
    if buf.len() == 0 {
        Ok(None)
    } else {
        match version {
            ProtocolVersion::V311 => match v3::codec::spec_decode_v3(buf) {
                Ok(Some((p, n))) => Ok(Some((MqttPacketView::V311(p), n))),
                Ok(None) => Ok(None),
                Err(e) => Err(e),
            },
            ProtocolVersion::V5 => match v5::codec::spec_decode_v5(buf) {
                Ok(Some((p, n))) => Ok(Some((MqttPacketView::V5(p), n))),
                Ok(None) => Ok(None),
                Err(e) => Err(e),
            },
        }
    }
}

/// Decode a packet using the known protocol version; returns the packet and
/// the bytes it takes. The buffer is left as it was.
pub fn decode_packet_by_version(buf: &mut BytesMut, version: ProtocolVersion) -> (r: MqttResult<Option<(MqttPacket, usize)>>)
    ensures
        *final(buf) == *old(buf),
        match r {
            Ok(Some((p, n))) => spec_decode_by_version(buffer_bytes(*old(buf)), version) == Ok::<
                Option<(MqttPacketView, nat)>,
                Fault,
            >(Some((p@, n as nat))),
            Ok(None) => spec_decode_by_version(buffer_bytes(*old(buf)), version) == Ok::<
                Option<(MqttPacketView, nat)>,
                Fault,
            >(None),
            Err(e) => spec_decode_by_version(buffer_bytes(*old(buf)), version) == Err::<
                Option<(MqttPacketView, nat)>,
                Fault,
            >(e.fault()),
        },
{
    if buffer_as_slice(buf).len() == 0 {
        return Ok(None);
    }
    match version {
        ProtocolVersion::V311 => match v3::codec::decode_packet(buf) {
            Ok(Some((p, s))) => Ok(Some((MqttPacket::V311(p), s))),
            Ok(None) => Ok(None),
            Err(e) => Err(e),
        },
        ProtocolVersion::V5 => match v5::codec::decode_packet(buf) {
            Ok(Some((p, s))) => Ok(Some((MqttPacket::V5(p), s))),
            Ok(None) => Ok(None),
            Err(e) => Err(e),
        },
    }
}

/// Decoding a packet of a connection whose version is known, refusing a
/// whole packet longer than `max` bytes as too large.
pub open spec fn spec_decode_within(buf: Seq<u8>, version: ProtocolVersion, max: usize) -> Result<Option<(MqttPacketView, nat)>, Fault> {
    match spec_decode_by_version(buf, version) {
        Ok(Some((p, n))) => if n > max {
            Err(Fault::TooLarge(n as usize))
        } else {
            Ok(Some((p, n)))
        },
        other => other,
    }
}

/// Decode a packet using the known protocol version, as
/// `decode_packet_by_version` does, refusing one longer than `max` bytes
/// (the configured `max_packet_size`). The buffer is left as it was.
pub fn decode_packet_within(buf: &mut BytesMut, version: ProtocolVersion, max: usize) -> (r: MqttResult<Option<(MqttPacket, usize)>>)
    ensures
        *final(buf) == *old(buf),
        match r {
            Ok(Some((p, n))) => spec_decode_within(buffer_bytes(*old(buf)), version, max) == Ok::<
                Option<(MqttPacketView, nat)>,
                Fault,
            >(Some((p@, n as nat))),
            Ok(None) => spec_decode_within(buffer_bytes(*old(buf)), version, max) == Ok::<
                Option<(MqttPacketView, nat)>,
                Fault,
            >(None),
            Err(e) => spec_decode_within(buffer_bytes(*old(buf)), version, max) == Err::<
                Option<(MqttPacketView, nat)>,
                Fault,
            >(e.fault()),
        },
{
    match decode_packet_by_version(buf, version) {
        Ok(Some((p, n))) => if n > max {
            Err(MqttError::PacketTooLarge(n))
        } else {
            Ok(Some((p, n)))
        },
        Ok(None) => Ok(None),
        Err(e) => Err(e),
    }
}

// ==================== what packets do ====================

/// The bytes of the QoS 0 MQTT 3.1.1 PUBLISH the broker forwards to subscribers.
pub open spec fn spec_forward_bytes(topic: Seq<char>, payload: Seq<u8>, retain: bool) -> Seq<u8> {
    v3::codec::spec_encode_v3(
        PacketV3View::Publish(PublishView { topic, payload, qos: QoS::AtMostOnce, retain, packet_id: None }),
    )
}

/// A copy of some bytes.
fn copy_bytes(s: &[u8]) -> (v: Vec<u8>)
    ensures
        v@ == s@,
{
    let mut v: Vec<u8> = Vec::new();
    append_bytes(&mut v, s);
    v
}

/// The QoS 0 MQTT 3.1.1 PUBLISH of `topic` and `payload`, encoded.
fn forward_bytes(topic: &str, payload: &[u8], retain: bool) -> (v: Vec<u8>)
    ensures
        v@ == spec_forward_bytes(topic@, payload@, retain),
{
    let pkt = MqttPacket::V311(
        MqttPacketV3::Publish(
            v3::types::PublishPacket {
                topic: topic.to_owned(),
                payload: copy_bytes(payload),
                qos: QoS::AtMostOnce,
                retain,
                packet_id: None,
            },
        ),
    );
    match encode_packet(&pkt) {
        Ok(encoded) => copy_bytes(buffer_as_slice(&encoded)),
        Err(_) => Vec::new(),
    }
}

/// What accepting a PUBLISH asks for: route it, and record the retained
/// message it sets or clears.
pub open spec fn spec_publish_actions(topic: Seq<char>, payload: Seq<u8>, qos: QoS, retain: bool, client: Seq<char>) -> Seq<ActionView> {
    seq![ActionView::Route(MessageView::Publish { topic, payload, qos, retain, source_client: client })] + (if retain {
        if payload.len() == 0 {
            seq![ActionView::Persist(EventView::RemoveRetained(topic))]
        } else {
            seq![ActionView::Persist(EventView::SaveRetained { topic, payload, qos: spec_qos_to_db(qos) })]
        }
    } else {
        Seq::empty()
    })
}

/// The retained messages after accepting a PUBLISH: a retained PUBLISH with
/// an empty payload clears its topic's message, one with a payload replaces it.
pub open spec fn spec_publish_retained(
    r: Map<Seq<char>, RetainedView>,
    topic: Seq<char>,
    payload: Seq<u8>,
    qos: QoS,
    retain: bool,
) -> Map<Seq<char>, RetainedView> {
    if retain {
        if payload.len() == 0 {
            r.remove(topic)
        } else {
            r.insert(topic, (topic, payload, qos))
        }
    } else {
        r
    }
}

/// Accept a PUBLISH from `client_id`: route it and update the retained messages.
fn apply_publish(core: &mut BrokerCore, topic: &String, payload: &Vec<u8>, qos: QoS, retain: bool, client_id: &str) -> (actions: Vec<BrokerAction>)
    ensures
        old(core).wf() ==> final(core).wf(),
        actions_view(actions@) == spec_publish_actions(topic@, payload@, qos, retain, client_id@),
        retained_view(final(core).retained) == spec_publish_retained(
            retained_view(old(core).retained),
            topic@,
            payload@,
            qos,
            retain,
        ),
        final(core).sessions == old(core).sessions,
        final(core).subscriptions == old(core).subscriptions,
        final(core).wills == old(core).wills,
        final(core).metrics == old(core).metrics,
        final(core).next_client_id == old(core).next_client_id,
{
    let mut actions: Vec<BrokerAction> = Vec::new();
    push_action(
        &mut actions,
        BrokerAction::Route(
            BrokerMessage::Publish {
                topic: topic.clone(),
                payload: copy_bytes(payload.as_slice()),
                qos,
                retain,
                source_client: client_id.to_owned(),
            },
        ),
    );
    if retain {
        if payload.len() == 0 {
            retained_remove(&mut core.retained, topic.as_str());
            push_action(&mut actions, BrokerAction::Persist(PersistEvent::RemoveRetained(topic.clone())));
        } else {
            retained_set(
                &mut core.retained,
                RetainedMessage::new(topic.clone(), copy_bytes(payload.as_slice()), qos),
            );
            push_action(
                &mut actions,
                BrokerAction::Persist(
                    PersistEvent::SaveRetained {
                        topic: topic.clone(),
                        payload: copy_bytes(payload.as_slice()),
                        qos: qos_to_db(qos),
                    },
                ),
            );
        }
    }
    assert(actions_view(actions@) =~= spec_publish_actions(topic@, payload@, qos, retain, client_id@));
    actions
}

/// The retained messages delivered to `client` on subscribing with `filter`:
/// each one with a payload whose topic the filter matches, in order.
pub open spec fn spec_retained_deliveries(r: Seq<RetainedView>, filter: Seq<char>, client: Seq<char>) -> Seq<ActionView>
    decreases r.len(),
{
    if r.len() == 0 {
        Seq::empty()
    } else {
        let prev = spec_retained_deliveries(r.drop_last(), filter, client);
        let m = r.last();
        if filter_levels_match(topic_levels(trimmed(filter)), topic_levels(m.0)) && m.1.len() > 0 {
            prev.push(ActionView::Deliver(client, spec_forward_bytes(m.0, m.1, true)))
        } else {
            prev
        }
    }
}

/// Each retained message that matches `filter` and has a payload is among
/// the deliveries to a new subscriber.
proof fn lemma_retained_delivery_included(r: Seq<RetainedView>, filter: Seq<char>, client: Seq<char>, j: int)
    requires
        0 <= j < r.len(),
        filter_levels_match(topic_levels(trimmed(filter)), topic_levels(r[j].0)),
        r[j].1.len() > 0,
    ensures
        spec_retained_deliveries(r, filter, client).contains(
            ActionView::Deliver(client, spec_forward_bytes(r[j].0, r[j].1, true)),
        ),
    decreases r.len(),
{
    let x = ActionView::Deliver(client, spec_forward_bytes(r[j].0, r[j].1, true));
    let prev = spec_retained_deliveries(r.drop_last(), filter, client);
    if j == r.len() - 1 {
        assert(spec_retained_deliveries(r, filter, client) == prev.push(x));
        assert(prev.push(x)[prev.len() as int] == x);
    } else {
        assert(r.drop_last()[j] == r[j]);
        lemma_retained_delivery_included(r.drop_last(), filter, client, j);
        let k = choose|k: int| 0 <= k < prev.len() && prev[k] == x;
        let m = r.last();
        if filter_levels_match(topic_levels(trimmed(filter)), topic_levels(m.0)) && m.1.len() > 0 {
            let d = ActionView::Deliver(client, spec_forward_bytes(m.0, m.1, true));
            assert(prev.push(d)[k] == x);
        }
    }
}

/// A retained PUBLISH with a payload reaches every later subscriber whose
/// filter matches its topic: subscribing then delivers it, retained, in
/// whatever order the retained messages are listed.
pub proof fn lemma_retained_reaches_later_subscribers(
    r: Map<Seq<char>, RetainedView>,
    items: Seq<RetainedView>,
    topic: Seq<char>,
    payload: Seq<u8>,
    qos: QoS,
    filter: Seq<char>,
    client: Seq<char>,
)
    requires
        payload.len() > 0,
        filter_levels_match(topic_levels(trimmed(filter)), topic_levels(topic)),
        retained_listing(items, spec_publish_retained(r, topic, payload, qos, true)),
    ensures
        spec_retained_deliveries(items, filter, client).contains(
            ActionView::Deliver(client, spec_forward_bytes(topic, payload, true)),
        ),
{
    let r2 = spec_publish_retained(r, topic, payload, qos, true);
    assert(r2.dom().contains(topic));
    let i = choose|i: int| 0 <= i < items.len() && #[trigger] items[i].0 == topic;
    assert(r2[topic] == (topic, payload, qos));
    assert(r2.dom().contains(items[i].0));
    lemma_retained_delivery_included(items, filter, client, i);
}

/// Deliveries of the retained messages matching `filter` to `client_id`.
fn retained_deliveries(retained: &Vec<(String, Vec<u8>, QoS)>, filter: &str, client_id: &str) -> (actions: Vec<BrokerAction>)
    ensures
        actions_view(actions@) == spec_retained_deliveries(retained_items_view(retained@), filter@, client_id@),
{
    let ghost rv = retained_items_view(retained@);
    let topic_filter = TopicFilter::new(filter);
    let mut actions: Vec<BrokerAction> = Vec::new();
    let mut i: usize = 0;
    while i < retained.len()
        invariant
            i <= retained.len(),
            rv == retained_items_view(retained@),
            topic_filter.levels() == topic_levels(trimmed(filter@)),
            actions_view(actions@) == spec_retained_deliveries(rv.take(i as int), filter@, client_id@),
        decreases retained.len() - i,
    {
        let item = &retained[i];
        proof {
            assert(rv.take(i + 1).drop_last() =~= rv.take(i as int));
            assert(rv.take(i + 1).last() == (item.0@, item.1@, item.2));
        }
        if topic_filter.matches(item.0.as_str()) {
            // Only send if payload is non-empty (empty = delete marker)
            if item.1.len() != 0 {
                let bytes = forward_bytes(item.0.as_str(), item.1.as_slice(), true);
                push_action(&mut actions, BrokerAction::Deliver { client_id: client_id.to_owned(), bytes });
            }
        }
        i = i + 1;
    }
    assert(rv.take(i as int) =~= rv);
    actions
}

/// Whether `username` may subscribe with `filter` under the ACL `acl`.
pub open spec fn spec_may_subscribe(acl: AclChecker, username: Seq<char>, filter: Seq<char>) -> bool {
    !acl.enabled || spec_granted(acl.rules(), username, filter, false)
}

/// Subscribing `client` to the filters `fs` in order: the subscriptions
/// after, the actions asked for, and each filter's outcome (`None` when the
/// ACL refuses it, else its granted QoS).
pub open spec fn spec_subscribe_all(
    subs: Set<SubscriptionView>,
    retained: Seq<RetainedView>,
    acl: AclChecker,
    username: Seq<char>,
    client: Seq<char>,
    fs: Seq<(Seq<char>, QoS)>,
) -> (Set<SubscriptionView>, Seq<ActionView>, Seq<Option<QoS>>)
    decreases fs.len(),
{
    if fs.len() == 0 {
        (subs, Seq::empty(), Seq::empty())
    } else {
        let (s, acts, codes) = spec_subscribe_all(subs, retained, acl, username, client, fs.drop_last());
        let (path, qos) = fs.last();
        if !spec_may_subscribe(acl, username, path) {
            (s, acts, codes.push(None))
        } else {
            (
                without_key(s, client, path).insert((client, path, qos)),
                acts.push(
                    ActionView::Persist(EventView::SaveSubscription { client_id: client, filter: path, qos: spec_qos_to_db(qos) }),
                ) + spec_retained_deliveries(retained, path, client),
                codes.push(Some(qos)),
            )
        }
    }
}

/// Each filter's outcome of a SUBSCRIBE: `None` when the ACL refuses it,
/// else its requested QoS.
pub open spec fn spec_subscribe_codes(acl: AclChecker, username: Seq<char>, fs: Seq<(Seq<char>, QoS)>) -> Seq<Option<QoS>> {
    fs.map_values(|f: (Seq<char>, QoS)| if spec_may_subscribe(acl, username, f.0) { Some(f.1) } else { None })
}

/// The outcomes of subscribing do not depend on the subscriptions or the
/// retained messages.
proof fn lemma_subscribe_codes(
    subs: Set<SubscriptionView>,
    retained: Seq<RetainedView>,
    acl: AclChecker,
    username: Seq<char>,
    client: Seq<char>,
    fs: Seq<(Seq<char>, QoS)>,
)
    ensures
        spec_subscribe_all(subs, retained, acl, username, client, fs).2 == spec_subscribe_codes(acl, username, fs),
    decreases fs.len(),
{
    if fs.len() > 0 {
        lemma_subscribe_codes(subs, retained, acl, username, client, fs.drop_last());
        assert(spec_subscribe_codes(acl, username, fs) =~= spec_subscribe_codes(acl, username, fs.drop_last()).push(
            if spec_may_subscribe(acl, username, fs.last().0) { Some(fs.last().1) } else { None },
        ));
    }
}

/// The number the subscription count metric shows for `n` subscriptions.
pub open spec fn spec_count_metric(n: nat) -> u64 {
    (if n <= usize::MAX { n } else { usize::MAX as nat }) as u64
}

/// Subscribe `client_id` to each filter the ACL allows `username`; returns
/// each filter's outcome and the actions asked for.
fn apply_subscribe(
    core: &mut BrokerCore,
    acl: &AclChecker,
    username: &str,
    client_id: &str,
    filters: &Vec<(String, QoS)>,
) -> (r: (Vec<Option<QoS>>, Vec<BrokerAction>))
    ensures
        exists|items: Seq<RetainedView>| #[trigger] retained_listing(items, retained_view(old(core).retained)) && {
            let fs = filters@.map_values(|f: (String, QoS)| (f.0@, f.1));
            let (s, acts, codes) = spec_subscribe_all(
                old(core).subscriptions@.to_set(),
                items,
                *acl,
                username@,
                client_id@,
                fs,
            );
            &&& final(core).subscriptions@.to_set() == s
            &&& actions_view(r.1@) == acts
            &&& r.0@ == codes
        },
        r.0@ == spec_subscribe_codes(*acl, username@, filters@.map_values(|f: (String, QoS)| (f.0@, f.1))),
        final(core).metrics == (crate::metrics::BrokerMetrics {
            subscriptions_active: spec_count_metric(final(core).subscriptions@.len()),
            ..old(core).metrics
        }),
        final(core).sessions == old(core).sessions,
        final(core).retained == old(core).retained,
        final(core).wills == old(core).wills,
        final(core).next_client_id == old(core).next_client_id,
{
    let ghost fs = filters@.map_values(|f: (String, QoS)| (f.0@, f.1));
    let ghost subs0 = core.subscriptions@.to_set();
    let items = crate::broker::retained_entries(&core.retained);
    let ghost rv = retained_items_view(items@);
    let mut codes: Vec<Option<QoS>> = Vec::new();
    let mut actions: Vec<BrokerAction> = Vec::new();
    let mut i: usize = 0;
    while i < filters.len()
        invariant
            i <= filters.len(),
            fs == filters@.map_values(|f: (String, QoS)| (f.0@, f.1)),
            rv == retained_items_view(items@),
            core.sessions == old(core).sessions,
            core.retained == old(core).retained,
            core.wills == old(core).wills,
            core.metrics == old(core).metrics,
            core.next_client_id == old(core).next_client_id,
            ({
                let (s, acts, cs) = spec_subscribe_all(subs0, rv, *acl, username@, client_id@, fs.take(i as int));
                &&& core.subscriptions@.to_set() == s
                &&& actions_view(actions@) == acts
                &&& codes@ == cs
            }),
        decreases filters.len() - i,
    {
        let (path, qos) = &filters[i];
        proof {
            assert(fs.take(i + 1).drop_last() =~= fs.take(i as int));
            assert(fs.take(i + 1).last() == (path@, *qos));
        }
        // ── ACL check: SUBSCRIBE ──
        if !acl.authorize_subscribe(username, path.as_str()) {
            codes.push(None);
        } else {
            // Add subscription to tree
            core.subscriptions.subscribe(client_id, path.as_str(), *qos);
            push_action(
                &mut actions,
                BrokerAction::Persist(
                    PersistEvent::SaveSubscription {
                        client_id: client_id.to_owned(),
                        filter: path.clone(),
                        qos: qos_to_db(*qos),
                    },
                ),
            );
            codes.push(Some(*qos));
            // Send retained messages matching this subscription filter
            let more = retained_deliveries(&items, path.as_str(), client_id);
            append_actions(&mut actions, more);
        }
        i = i + 1;
    }
    assert(fs.take(i as int) =~= fs);
    proof {
        lemma_subscribe_codes(subs0, rv, *acl, username@, client_id@, fs);
        assert(retained_listing(rv, retained_view(old(core).retained)));
    }
    let n = core.subscriptions.count();
    core.metrics.subscriptions_active = n as u64;
    (codes, actions)
}

/// Unsubscribing `client` from the filters `fs` in order: the subscriptions after.
pub open spec fn spec_unsubscribe_all(subs: Set<SubscriptionView>, client: Seq<char>, fs: Seq<Seq<char>>) -> Set<SubscriptionView>
    decreases fs.len(),
{
    if fs.len() == 0 {
        subs
    } else {
        without_key(spec_unsubscribe_all(subs, client, fs.drop_last()), client, fs.last())
    }
}

/// The persistence events of unsubscribing `client` from `fs`.
pub open spec fn spec_unsubscribe_actions(client: Seq<char>, fs: Seq<Seq<char>>) -> Seq<ActionView> {
    fs.map_values(|f: Seq<char>| ActionView::Persist(EventView::RemoveSubscription { client_id: client, filter: f }))
}

/// Unsubscribe `client_id` from each filter.
fn apply_unsubscribe(core: &mut BrokerCore, client_id: &str, filters: &Vec<String>) -> (actions: Vec<BrokerAction>)
    ensures
        final(core).subscriptions@.to_set() == spec_unsubscribe_all(
            old(core).subscriptions@.to_set(),
            client_id@,
            filters@.map_values(|f: String| f@),
        ),
        actions_view(actions@) == spec_unsubscribe_actions(client_id@, filters@.map_values(|f: String| f@)),
        final(core).metrics == (crate::metrics::BrokerMetrics {
            subscriptions_active: spec_count_metric(final(core).subscriptions@.len()),
            ..old(core).metrics
        }),
        final(core).sessions == old(core).sessions,
        final(core).retained == old(core).retained,
        final(core).wills == old(core).wills,
        final(core).next_client_id == old(core).next_client_id,
{
    let ghost fs = filters@.map_values(|f: String| f@);
    let ghost subs0 = core.subscriptions@.to_set();
    let mut actions: Vec<BrokerAction> = Vec::new();
    let mut i: usize = 0;
    while i < filters.len()
        invariant
            i <= filters.len(),
            fs == filters@.map_values(|f: String| f@),
            core.sessions == old(core).sessions,
            core.retained == old(core).retained,
            core.wills == old(core).wills,
            core.metrics == old(core).metrics,
            core.next_client_id == old(core).next_client_id,
            core.subscriptions@.to_set() == spec_unsubscribe_all(subs0, client_id@, fs.take(i as int)),
            actions_view(actions@) == spec_unsubscribe_actions(client_id@, fs.take(i as int)),
        decreases filters.len() - i,
    {
        let filter = &filters[i];
        proof {
            assert(fs.take(i + 1).drop_last() =~= fs.take(i as int));
            assert(fs.take(i + 1).last() == filter@);
        }
        core.subscriptions.unsubscribe(client_id, filter.as_str());
        push_action(
            &mut actions,
            BrokerAction::Persist(
                PersistEvent::RemoveSubscription { client_id: client_id.to_owned(), filter: filter.clone() },
            ),
        );
        assert(spec_unsubscribe_actions(client_id@, fs.take(i + 1)) =~= spec_unsubscribe_actions(
            client_id@,
            fs.take(i as int),
        ).push(ActionView::Persist(EventView::RemoveSubscription { client_id: client_id@, filter: filter@ })));
        i = i + 1;
    }
    assert(fs.take(i as int) =~= fs);
    let n = core.subscriptions.count();
    core.metrics.subscriptions_active = n as u64;
    actions
}

/// What a packet asks of the broker: an answer for the client, and actions.
pub struct PacketOutcome {
    pub response: Option<MqttPacket>,
    pub actions: Vec<BrokerAction>,
}

/// The view of an optional packet.
pub open spec fn opt_packet_view(p: Option<MqttPacket>) -> Option<MqttPacketView> {
    match p {
        Some(x) => Some(x@),
        None => None,
    }
}

/// Whether `username` may publish on `topic` under the ACL `acl`.
pub open spec fn spec_may_publish(acl: AclChecker, username: Seq<char>, topic: Seq<char>) -> bool {
    !acl.enabled || spec_granted(acl.rules(), username, topic, true)
}

/// Room in the counters for one more PUBLISH of `n` payload bytes.
pub open spec fn room_for_publish(m: crate::metrics::BrokerMetrics, n: nat) -> bool {
    m.messages_received < u64::MAX && m.bytes_received + n <= u64::MAX
}

/// The metrics after a PUBLISH of `n` payload bytes arrives.
pub open spec fn spec_count_publish(m: crate::metrics::BrokerMetrics, n: nat) -> crate::metrics::BrokerMetrics {
    crate::metrics::BrokerMetrics {
        messages_received: (m.messages_received + 1) as u64,
        bytes_received: (m.bytes_received + n) as u64,
        ..m
    }
}

/// Count an arriving PUBLISH of `n` payload bytes.
fn count_publish(core: &mut BrokerCore, n: usize)
    requires
        room_for_publish(old(core).metrics, n as nat),
    ensures
        final(core).metrics == spec_count_publish(old(core).metrics, n as nat),
        final(core).sessions == old(core).sessions,
        final(core).subscriptions == old(core).subscriptions,
        final(core).retained == old(core).retained,
        final(core).wills == old(core).wills,
        final(core).next_client_id == old(core).next_client_id,
{
    core.metrics.increment_messages_received();
    core.metrics.increment_bytes_received(n as u64);
}

/// The MQTT 3.1.1 acknowledgement of an accepted PUBLISH: PUBACK for QoS 1,
/// PUBREC for QoS 2, none for QoS 0 or without a packet identifier.
pub open spec fn spec_v3_publish_ack(qos: QoS, pid: Option<u16>) -> Option<MqttPacketView> {
    match pid {
        Some(id) => if qos == QoS::AtLeastOnce {
            Some(MqttPacketView::V311(PacketV3View::PubAck(id)))
        } else if qos == QoS::ExactlyOnce {
            Some(MqttPacketView::V311(PacketV3View::PubRec(id)))
        } else {
            None
        },
        None => None,
    }
}

/// The SUBACK return code of a filter's outcome.
pub open spec fn spec_v3_code(c: Option<QoS>) -> v3::types::SubAckReturnCode {
    match c {
        None => v3::types::SubAckReturnCode::Failure,
        Some(QoS::AtMostOnce) => v3::types::SubAckReturnCode::SuccessQoS0,
        Some(QoS::AtLeastOnce) => v3::types::SubAckReturnCode::SuccessQoS1,
        Some(QoS::ExactlyOnce) => v3::types::SubAckReturnCode::SuccessQoS2,
    }
}

/// The MQTT 5.0 reason code of a filter's outcome.
pub open spec fn spec_v5_code(c: Option<QoS>) -> ReasonCode {
    match c {
        None => ReasonCode::NotAuthorized,
        Some(_) => ReasonCode::Success,
    }
}

/// The (filter, QoS) pairs of MQTT 3.1.1 SUBSCRIBE entries.
fn v3_filter_pairs(filters: &Vec<v3::types::SubscribeFilter>) -> (r: Vec<(String, QoS)>)
    ensures
        r@.map_values(|f: (String, QoS)| (f.0@, f.1)) == v3::types::filters_view(filters@).map_values(
            |f: v3::types::SubscribeFilterView| (f.path, f.qos),
        ),
{
    let mut r: Vec<(String, QoS)> = Vec::new();
    let mut i: usize = 0;
    while i < filters.len()
        invariant
            i <= filters.len(),
            r@.map_values(|f: (String, QoS)| (f.0@, f.1)) == v3::types::filters_view(filters@).take(
                i as int,
            ).map_values(|f: v3::types::SubscribeFilterView| (f.path, f.qos)),
        decreases filters.len() - i,
    {
        let f = &filters[i];
        let ghost before = r@.map_values(|f: (String, QoS)| (f.0@, f.1));
        let path = f.path.clone();
        assert(path@ == f.path@);
        assert(v3::types::filters_view(filters@)[i as int] == f@);
        r.push((path, f.qos));
        assert(r@.map_values(|f: (String, QoS)| (f.0@, f.1)) =~= before.push((f.path@, f.qos)));
        i = i + 1;
        assert(r@.map_values(|f: (String, QoS)| (f.0@, f.1)) =~= v3::types::filters_view(filters@).take(
            i as int,
        ).map_values(|f: v3::types::SubscribeFilterView| (f.path, f.qos)));
    }
    assert(v3::types::filters_view(filters@).take(i as int) =~= v3::types::filters_view(filters@));
    r
}

/// The (filter, QoS) pairs of MQTT 5.0 SUBSCRIBE entries.
fn v5_filter_pairs(filters: &Vec<v5::types::SubscribeFilter>) -> (r: Vec<(String, QoS)>)
    ensures
        r@.map_values(|f: (String, QoS)| (f.0@, f.1)) == v5::types::filters_v5_view(filters@).map_values(
            |f: v5::types::SubscribeFilterV5View| (f.path, f.qos),
        ),
{
    let mut r: Vec<(String, QoS)> = Vec::new();
    let mut i: usize = 0;
    while i < filters.len()
        invariant
            i <= filters.len(),
            r@.map_values(|f: (String, QoS)| (f.0@, f.1)) == v5::types::filters_v5_view(filters@).take(
                i as int,
            ).map_values(|f: v5::types::SubscribeFilterV5View| (f.path, f.qos)),
        decreases filters.len() - i,
    {
        let f = &filters[i];
        let ghost before = r@.map_values(|f: (String, QoS)| (f.0@, f.1));
        let path = f.path.clone();
        assert(path@ == f.path@);
        assert(v5::types::filters_v5_view(filters@)[i as int] == f@);
        r.push((path, f.qos));
        assert(r@.map_values(|f: (String, QoS)| (f.0@, f.1)) =~= before.push((f.path@, f.qos)));
        i = i + 1;
        assert(r@.map_values(|f: (String, QoS)| (f.0@, f.1)) =~= v5::types::filters_v5_view(filters@).take(
            i as int,
        ).map_values(|f: v5::types::SubscribeFilterV5View| (f.path, f.qos)));
    }
    assert(v5::types::filters_v5_view(filters@).take(i as int) =~= v5::types::filters_v5_view(filters@));
    r
}

/// The SUBACK return codes of the filters' outcomes.
fn v3_codes(codes: &Vec<Option<QoS>>) -> (r: Vec<v3::types::SubAckReturnCode>)
    ensures
        r@ == codes@.map_values(|c: Option<QoS>| spec_v3_code(c)),
{
    let mut r: Vec<v3::types::SubAckReturnCode> = Vec::new();
    let mut i: usize = 0;
    while i < codes.len()
        invariant
            i <= codes.len(),
            r@ == codes@.take(i as int).map_values(|c: Option<QoS>| spec_v3_code(c)),
        decreases codes.len() - i,
    {
        let code = match codes[i] {
            None => v3::types::SubAckReturnCode::Failure,
            Some(QoS::AtMostOnce) => v3::types::SubAckReturnCode::SuccessQoS0,
            Some(QoS::AtLeastOnce) => v3::types::SubAckReturnCode::SuccessQoS1,
            Some(QoS::ExactlyOnce) => v3::types::SubAckReturnCode::SuccessQoS2,
        };
        r.push(code);
        i = i + 1;
        assert(r@ =~= codes@.take(i as int).map_values(|c: Option<QoS>| spec_v3_code(c)));
    }
    assert(codes@.take(i as int) =~= codes@);
    r
}

/// The MQTT 5.0 reason codes of the filters' outcomes.
fn v5_codes(codes: &Vec<Option<QoS>>) -> (r: Vec<ReasonCode>)
    ensures
        r@ == codes@.map_values(|c: Option<QoS>| spec_v5_code(c)),
{
    let mut r: Vec<ReasonCode> = Vec::new();
    let mut i: usize = 0;
    while i < codes.len()
        invariant
            i <= codes.len(),
            r@ == codes@.take(i as int).map_values(|c: Option<QoS>| spec_v5_code(c)),
        decreases codes.len() - i,
    {
        let code = match codes[i] {
            None => ReasonCode::NotAuthorized,
            Some(_) => ReasonCode::Success,
        };
        r.push(code);
        i = i + 1;
        assert(r@ =~= codes@.take(i as int).map_values(|c: Option<QoS>| spec_v5_code(c)));
    }
    assert(codes@.take(i as int) =~= codes@);
    r
}

/// What a DISCONNECT does: the client's session is marked disconnected and,
/// unless `keep_will`, its will is dropped.
fn apply_disconnect(core: &mut BrokerCore, client_id: &str, keep_will: bool) -> (actions: Vec<BrokerAction>)
    ensures
        old(core).wf() ==> final(core).wf(),
        crate::broker::sessions_view(final(core).sessions) == crate::broker::spec_mark_disconnected(
            crate::broker::sessions_view(old(core).sessions),
            client_id@,
        ),
        crate::broker::wills_view(final(core).wills) == (if keep_will {
            crate::broker::wills_view(old(core).wills)
        } else {
            crate::broker::wills_view(old(core).wills).remove(client_id@)
        }),
        keep_will ==> final(core).wills == old(core).wills,
        actions_view(actions@) == (if keep_will {
            Seq::<ActionView>::empty()
        } else {
            seq![ActionView::Persist(EventView::RemoveWill(client_id@))]
        }),
        final(core).subscriptions == old(core).subscriptions,
        final(core).retained == old(core).retained,
        final(core).metrics == old(core).metrics,
        final(core).next_client_id == old(core).next_client_id,
{
    crate::broker::session_mark_disconnected(&mut core.sessions, client_id);
    let mut actions: Vec<BrokerAction> = Vec::new();
    if !keep_will {
        // Remove will message on a clean disconnect
        let _will = crate::broker::will_take(&mut core.wills, client_id);
        push_action(&mut actions, BrokerAction::Persist(PersistEvent::RemoveWill(client_id.to_owned())));
    }
    assert(actions_view(actions@) =~= (if keep_will {
        Seq::<ActionView>::empty()
    } else {
        seq![ActionView::Persist(EventView::RemoveWill(client_id@))]
    }));
    actions
}

/// Nothing changes and nothing is asked.
pub open spec fn unchanged(before: BrokerCore, after: BrokerCore, r: PacketOutcome) -> bool {
    after == before && actions_view(r.actions@).len() == 0
}

/// Everything but the subscriptions and the subscription metric stays.
pub open spec fn only_subscriptions_change(before: BrokerCore, after: BrokerCore) -> bool {
    &&& after.metrics == (crate::metrics::BrokerMetrics {
        subscriptions_active: spec_count_metric(after.subscriptions@.len()),
        ..before.metrics
    })
    &&& after.sessions == before.sessions
    &&& after.retained == before.retained
    &&& after.wills == before.wills
    &&& after.next_client_id == before.next_client_id
}

/// What an arriving PUBLISH does: it is counted; when the ACL allows it, it
/// is routed and its retained message recorded.
pub open spec fn spec_publish_effect(before: BrokerCore, after: BrokerCore, acts: Seq<ActionView>, acl: AclChecker, username: Seq<char>, client: Seq<char>, topic: Seq<char>, payload: Seq<u8>, qos: QoS, retain: bool) -> bool {
    &&& after.metrics == spec_count_publish(before.metrics, payload.len())
    &&& after.sessions == before.sessions
    &&& after.subscriptions == before.subscriptions
    &&& after.wills == before.wills
    &&& after.next_client_id == before.next_client_id
    &&& if spec_may_publish(acl, username, topic) {
        &&& retained_view(after.retained) == spec_publish_retained(
            retained_view(before.retained),
            topic,
            payload,
            qos,
            retain,
        )
        &&& acts == spec_publish_actions(topic, payload, qos, retain, client)
    } else {
        &&& after.retained == before.retained
        &&& acts.len() == 0
    }
}

/// What a SUBSCRIBE does to the subscriptions and asks for; its outcomes.
pub open spec fn spec_subscribe_effect(before: BrokerCore, after: BrokerCore, acts: Seq<ActionView>, acl: AclChecker, username: Seq<char>, client: Seq<char>, fs: Seq<(Seq<char>, QoS)>, codes: Seq<Option<QoS>>) -> bool {
    &&& exists|items: Seq<RetainedView>| #[trigger] retained_listing(items, retained_view(before.retained)) && {
        let (s, a, c) = spec_subscribe_all(before.subscriptions@.to_set(), items, acl, username, client, fs);
        &&& after.subscriptions@.to_set() == s
        &&& acts == a
        &&& codes == c
    }
    &&& only_subscriptions_change(before, after)
}

/// What an UNSUBSCRIBE does to the subscriptions and asks for.
pub open spec fn spec_unsubscribe_effect(before: BrokerCore, after: BrokerCore, acts: Seq<ActionView>, client: Seq<char>, fs: Seq<Seq<char>>) -> bool {
    &&& after.subscriptions@.to_set() == spec_unsubscribe_all(before.subscriptions@.to_set(), client, fs)
    &&& acts == spec_unsubscribe_actions(client, fs)
    &&& only_subscriptions_change(before, after)
}

/// What a DISCONNECT does: session marked disconnected, will dropped unless kept.
pub open spec fn spec_disconnect_effect(before: BrokerCore, after: BrokerCore, acts: Seq<ActionView>, client: Seq<char>, keep_will: bool) -> bool {
    &&& crate::broker::sessions_view(after.sessions) == crate::broker::spec_mark_disconnected(
        crate::broker::sessions_view(before.sessions),
        client,
    )
    &&& crate::broker::wills_view(after.wills) == (if keep_will {
        crate::broker::wills_view(before.wills)
    } else {
        crate::broker::wills_view(before.wills).remove(client)
    })
    &&& acts == (if keep_will {
        Seq::<ActionView>::empty()
    } else {
        seq![ActionView::Persist(EventView::RemoveWill(client))]
    })
    &&& after.subscriptions == before.subscriptions
    &&& after.retained == before.retained
    &&& after.metrics == before.metrics
    &&& after.next_client_id == before.next_client_id
}

/// What an MQTT 3.1.1 packet from `client` (authenticated as `username`)
/// does to the broker, asks for, and is answered.
pub open spec fn spec_process_v3(before: BrokerCore, after: BrokerCore, r: PacketOutcome, acl: AclChecker, p: PacketV3View, client: Seq<char>, username: Seq<char>) -> bool {
    let acts = actions_view(r.actions@);
    let resp = opt_packet_view(r.response);
    match p {
        PacketV3View::Publish(x) => {
            &&& spec_publish_effect(before, after, acts, acl, username, client, x.topic, x.payload, x.qos, x.retain)
            &&& resp == (if spec_may_publish(acl, username, x.topic) {
                spec_v3_publish_ack(x.qos, x.packet_id)
            } else {
                None
            })
        },
        PacketV3View::PubRec(id) => unchanged(before, after, r) && resp == Some(MqttPacketView::V311(PacketV3View::PubRel(id))),
        PacketV3View::PubRel(id) => unchanged(before, after, r) && resp == Some(MqttPacketView::V311(PacketV3View::PubComp(id))),
        PacketV3View::Subscribe(id, fs) => {
            let pairs = fs.map_values(|f: v3::types::SubscribeFilterView| (f.path, f.qos));
            let codes = spec_subscribe_codes(acl, username, pairs);
            &&& spec_subscribe_effect(before, after, acts, acl, username, client, pairs, codes)
            &&& resp == Some(
                MqttPacketView::V311(PacketV3View::SubAck(id, codes.map_values(|c: Option<QoS>| spec_v3_code(c)))),
            )
        },
        PacketV3View::Unsubscribe(id, fs) => {
            &&& spec_unsubscribe_effect(before, after, acts, client, fs)
            &&& resp == Some(MqttPacketView::V311(PacketV3View::UnsubAck(id)))
        },
        PacketV3View::PingReq => unchanged(before, after, r) && resp == Some(MqttPacketView::V311(PacketV3View::PingResp)),
        PacketV3View::Disconnect => spec_disconnect_effect(before, after, acts, client, false) && resp is None,
        _ => unchanged(before, after, r) && resp is None,
    }
}

/// The requirement on the counters of an arriving packet.
pub open spec fn room_for_packet(m: crate::metrics::BrokerMetrics, p: MqttPacketView) -> bool {
    match p {
        MqttPacketView::V311(PacketV3View::Publish(x)) => room_for_publish(m, x.payload.len()),
        MqttPacketView::V5(PacketV5View::Publish(x)) => room_for_publish(m, x.payload.len()),
        _ => true,
    }
}

/// Process an MQTT 3.1.1 packet from `client_id`, authenticated as `username`.
pub fn process_v3_packet(core: &mut BrokerCore, acl: &AclChecker, packet: &MqttPacketV3, client_id: &str, username: &str) -> (r: PacketOutcome)
    requires
        room_for_packet(old(core).metrics, MqttPacketView::V311(packet@)),
    ensures
        old(core).wf() ==> final(core).wf(),
        spec_process_v3(*old(core), *final(core), r, *acl, packet@, client_id@, username@),
{
    match packet {
        MqttPacketV3::Publish(p) => {
            count_publish(core, p.payload.len());
            // ── ACL check: PUBLISH ──
            if !acl.authorize_publish(username, p.topic.as_str()) {
                // MQTT 3.1.1: silently drop the publish (no PUBACK even for QoS 1)
                return PacketOutcome { response: None, actions: Vec::new() };
            }
            let actions = apply_publish(core, &p.topic, &p.payload, p.qos, p.retain, client_id);
            let response = match p.packet_id {
                Some(pid) => if p.qos == QoS::AtLeastOnce {
                    // Send PUBACK for QoS 1
                    Some(MqttPacket::V311(MqttPacketV3::PubAck(v3::types::PubAckPacket { packet_id: pid })))
                } else if p.qos == QoS::ExactlyOnce {
                    // For QoS 2, send PUBREC
                    Some(MqttPacket::V311(MqttPacketV3::PubRec(v3::types::PubRecPacket { packet_id: pid })))
                } else {
                    None
                },
                None => None,
            };
            PacketOutcome { response, actions }
        },
        MqttPacketV3::PubRec(p) => {
            // Respond with PUBREL
            PacketOutcome {
                response: Some(MqttPacket::V311(MqttPacketV3::PubRel(v3::types::PubRelPacket { packet_id: p.packet_id }))),
                actions: Vec::new(),
            }
        },
        MqttPacketV3::PubRel(p) => {
            // Respond with PUBCOMP
            PacketOutcome {
                response: Some(MqttPacket::V311(MqttPacketV3::PubComp(v3::types::PubCompPacket { packet_id: p.packet_id }))),
                actions: Vec::new(),
            }
        },
        MqttPacketV3::Subscribe(p) => {
            let filters = v3_filter_pairs(&p.filters);
            let (codes, actions) = apply_subscribe(core, acl, username, client_id, &filters);
            let return_codes = v3_codes(&codes);
            PacketOutcome {
                response: Some(MqttPacket::V311(MqttPacketV3::SubAck(v3::types::SubAckPacket { packet_id: p.packet_id, return_codes }))),
                actions,
            }
        },
        MqttPacketV3::Unsubscribe(p) => {
            let actions = apply_unsubscribe(core, client_id, &p.filters);
            PacketOutcome {
                response: Some(MqttPacket::V311(MqttPacketV3::UnsubAck(v3::types::UnsubAckPacket { packet_id: p.packet_id }))),
                actions,
            }
        },
        MqttPacketV3::PingReq(_) => {
            PacketOutcome { response: Some(MqttPacket::V311(MqttPacketV3::PingResp(v3::types::PingRespPacket))), actions: Vec::new() }
        },
        MqttPacketV3::Disconnect(_) => {
            // Client is disconnecting; remove will message on clean disconnect
            let actions = apply_disconnect(core, client_id, false);
            PacketOutcome { response: None, actions }
        },
        _ => PacketOutcome { response: None, actions: Vec::new() },
    }
}

/// An MQTT 5.0 acknowledgement with no properties.
pub open spec fn spec_ack_v5(id: u16, rc: ReasonCode) -> v5::types::AckV5View {
    v5::types::AckV5View { packet_id: id, reason_code: rc, properties: Seq::empty() }
}

/// The MQTT 5.0 acknowledgement of a PUBLISH with reason `rc`: PUBACK for
/// QoS 1, PUBREC for QoS 2, none for QoS 0 or without a packet identifier.
pub open spec fn spec_v5_publish_ack(qos: QoS, pid: Option<u16>, rc: ReasonCode) -> Option<MqttPacketView> {
    match pid {
        Some(id) => if qos == QoS::AtLeastOnce {
            Some(MqttPacketView::V5(PacketV5View::PubAck(spec_ack_v5(id, rc))))
        } else if qos == QoS::ExactlyOnce {
            Some(MqttPacketView::V5(PacketV5View::PubRec(spec_ack_v5(id, rc))))
        } else {
            None
        },
        None => None,
    }
}

/// An MQTT 5.0 PUBLISH is acknowledged as in 3.1.1: QoS 2 with a packet
/// identifier by a PUBREC, QoS 1 by a PUBACK, each carrying that
/// identifier and the reason; QoS 0 or no identifier by nothing. An
/// accepted QoS 2 PUBLISH is never answered by a PUBACK.
pub proof fn lemma_v5_publish_acknowledged(before: BrokerCore, after: BrokerCore, r: PacketOutcome, acl: AclChecker, x: v5::types::PublishV5View, client: Seq<char>, username: Seq<char>)
    requires
        spec_process_v5(before, after, r, acl, PacketV5View::Publish(x), client, username),
    ensures
        (x.qos == QoS::ExactlyOnce && x.packet_id is Some) ==> (opt_packet_view(r.response) matches Some(
            MqttPacketView::V5(PacketV5View::PubRec(a)),
        ) && a.packet_id == x.packet_id->0 && a.reason_code == (if spec_may_publish(acl, username, x.topic) {
            ReasonCode::Success
        } else {
            ReasonCode::NotAuthorized
        })),
        (x.qos == QoS::AtLeastOnce && x.packet_id is Some) ==> (opt_packet_view(r.response) matches Some(
            MqttPacketView::V5(PacketV5View::PubAck(a)),
        ) && a.packet_id == x.packet_id->0),
        (x.qos == QoS::AtMostOnce || x.packet_id is None) ==> opt_packet_view(r.response) is None,
        opt_packet_view(r.response) matches Some(resp) ==> crate::codec::spec_packet_type(resp) == (if x.qos
            == QoS::ExactlyOnce {
            PacketType::PubRec
        } else {
            PacketType::PubAck
        }),
{
}

/// What an MQTT 5.0 packet from `client` (authenticated as `username`)
/// does to the broker, asks for, and is answered.
pub open spec fn spec_process_v5(before: BrokerCore, after: BrokerCore, r: PacketOutcome, acl: AclChecker, p: PacketV5View, client: Seq<char>, username: Seq<char>) -> bool {
    let acts = actions_view(r.actions@);
    let resp = opt_packet_view(r.response);
    match p {
        PacketV5View::Publish(x) => {
            &&& spec_publish_effect(before, after, acts, acl, username, client, x.topic, x.payload, x.qos, x.retain)
            &&& resp == spec_v5_publish_ack(
                x.qos,
                x.packet_id,
                if spec_may_publish(acl, username, x.topic) {
                    ReasonCode::Success
                } else {
                    ReasonCode::NotAuthorized
                },
            )
        },
        PacketV5View::PubRec(a) => unchanged(before, after, r) && resp == Some(
            MqttPacketView::V5(PacketV5View::PubRel(spec_ack_v5(a.packet_id, ReasonCode::Success))),
        ),
        PacketV5View::PubRel(a) => unchanged(before, after, r) && resp == Some(
            MqttPacketView::V5(PacketV5View::PubComp(spec_ack_v5(a.packet_id, ReasonCode::Success))),
        ),
        PacketV5View::Subscribe(id, fs, _) => {
            let pairs = fs.map_values(|f: v5::types::SubscribeFilterV5View| (f.path, f.qos));
            let codes = spec_subscribe_codes(acl, username, pairs);
            &&& spec_subscribe_effect(before, after, acts, acl, username, client, pairs, codes)
            &&& resp == Some(
                MqttPacketView::V5(
                    PacketV5View::SubAck(
                        v5::types::CodesV5View {
                            packet_id: id,
                            reason_codes: codes.map_values(|c: Option<QoS>| spec_v5_code(c)),
                            properties: Seq::empty(),
                        },
                    ),
                ),
            )
        },
        PacketV5View::Unsubscribe(id, fs, _) => {
            &&& spec_unsubscribe_effect(before, after, acts, client, fs)
            &&& resp == Some(
                MqttPacketView::V5(
                    PacketV5View::UnsubAck(
                        v5::types::CodesV5View {
                            packet_id: id,
                            reason_codes: Seq::new(fs.len(), |i: int| ReasonCode::Success),
                            properties: Seq::empty(),
                        },
                    ),
                ),
            )
        },
        PacketV5View::PingReq => unchanged(before, after, r) && resp == Some(MqttPacketView::V5(PacketV5View::PingResp)),
        PacketV5View::Disconnect(d) => spec_disconnect_effect(
            before,
            after,
            acts,
            client,
            d.reason_code == ReasonCode::DisconnectWithWillMessage,
        ) && resp is None,
        _ => unchanged(before, after, r) && resp is None,
    }
}

/// An MQTT 5.0 PUBACK or PUBREC with no properties.
fn v5_publish_ack(qos: QoS, pid: Option<u16>, rc: ReasonCode) -> (r: Option<MqttPacket>)
    ensures
        opt_packet_view(r) == spec_v5_publish_ack(qos, pid, rc),
{
    match pid {
        Some(packet_id) => if qos == QoS::AtLeastOnce {
            Some(
                MqttPacket::V5(
                    MqttPacketV5::PubAck(
                        v5::types::PubAckPacket { packet_id, reason_code: rc, properties: v5::properties::Properties::new() },
                    ),
                ),
            )
        } else if qos == QoS::ExactlyOnce {
            Some(
                MqttPacket::V5(
                    MqttPacketV5::PubRec(
                        v5::types::PubRecPacket { packet_id, reason_code: rc, properties: v5::properties::Properties::new() },
                    ),
                ),
            )
        } else {
            None
        },
        None => None,
    }
}

/// Process an MQTT 5.0 packet from `client_id`, authenticated as `username`.
pub fn process_v5_packet(core: &mut BrokerCore, acl: &AclChecker, packet: &MqttPacketV5, client_id: &str, username: &str) -> (r: PacketOutcome)
    requires
        room_for_packet(old(core).metrics, MqttPacketView::V5(packet@)),
    ensures
        old(core).wf() ==> final(core).wf(),
        spec_process_v5(*old(core), *final(core), r, *acl, packet@, client_id@, username@),
{
    match packet {
        MqttPacketV5::Publish(p) => {
            count_publish(core, p.payload.len());
            // ── ACL check: PUBLISH (MQTT 5.0) ──
            if !acl.authorize_publish(username, p.topic.as_str()) {
                // Answer QoS 1 and 2 with NotAuthorized
                return PacketOutcome {
                    response: v5_publish_ack(p.qos, p.packet_id, ReasonCode::NotAuthorized),
                    actions: Vec::new(),
                };
            }
            let actions = apply_publish(core, &p.topic, &p.payload, p.qos, p.retain, client_id);
            PacketOutcome { response: v5_publish_ack(p.qos, p.packet_id, ReasonCode::Success), actions }
        },
        MqttPacketV5::PubRec(p) => {
            PacketOutcome {
                response: Some(
                    MqttPacket::V5(
                        MqttPacketV5::PubRel(
                            v5::types::PubRelPacket {
                                packet_id: p.packet_id,
                                reason_code: ReasonCode::Success,
                                properties: v5::properties::Properties::new(),
                            },
                        ),
                    ),
                ),
                actions: Vec::new(),
            }
        },
        MqttPacketV5::PubRel(p) => {
            PacketOutcome {
                response: Some(
                    MqttPacket::V5(
                        MqttPacketV5::PubComp(
                            v5::types::PubCompPacket {
                                packet_id: p.packet_id,
                                reason_code: ReasonCode::Success,
                                properties: v5::properties::Properties::new(),
                            },
                        ),
                    ),
                ),
                actions: Vec::new(),
            }
        },
        MqttPacketV5::Subscribe(p) => {
            let filters = v5_filter_pairs(&p.filters);
            let (codes, actions) = apply_subscribe(core, acl, username, client_id, &filters);
            let reason_codes = v5_codes(&codes);
            PacketOutcome {
                response: Some(
                    MqttPacket::V5(
                        MqttPacketV5::SubAck(
                            v5::types::SubAckPacket {
                                packet_id: p.packet_id,
                                reason_codes,
                                properties: v5::properties::Properties::new(),
                            },
                        ),
                    ),
                ),
                actions,
            }
        },
        MqttPacketV5::Unsubscribe(p) => {
            let actions = apply_unsubscribe(core, client_id, &p.filters);
            let mut reason_codes: Vec<ReasonCode> = Vec::new();
            let mut i: usize = 0;
            while i < p.filters.len()
                invariant
                    i <= p.filters.len(),
                    reason_codes@ =~= Seq::new(i as nat, |k: int| ReasonCode::Success),
                decreases p.filters.len() - i,
            {
                reason_codes.push(ReasonCode::Success);
                i = i + 1;
            }
            assert(crate::v3::types::strings_view(p.filters@).len() == p.filters@.len());
            PacketOutcome {
                response: Some(
                    MqttPacket::V5(
                        MqttPacketV5::UnsubAck(
                            v5::types::UnsubAckPacket {
                                packet_id: p.packet_id,
                                reason_codes,
                                properties: v5::properties::Properties::new(),
                            },
                        ),
                    ),
                ),
                actions,
            }
        },
        MqttPacketV5::PingReq(_) => {
            PacketOutcome { response: Some(MqttPacket::V5(MqttPacketV5::PingResp(v5::types::PingRespPacket))), actions: Vec::new() }
        },
        MqttPacketV5::Disconnect(p) => {
            // The will stays only when the client asks for it
            let keep_will = p.reason_code == ReasonCode::DisconnectWithWillMessage;
            let actions = apply_disconnect(core, client_id, keep_will);
            PacketOutcome { response: None, actions }
        },
        _ => PacketOutcome { response: None, actions: Vec::new() },
    }
}

/// Process a decoded MQTT packet from `client_id`, authenticated as
/// `username`: what it does to the broker, asks for, and is answered.
pub fn process_packet(core: &mut BrokerCore, acl: &AclChecker, packet: &MqttPacket, client_id: &str, username: &str) -> (r: PacketOutcome)
    requires
        room_for_packet(old(core).metrics, packet@),
    ensures
        old(core).wf() ==> final(core).wf(),
        match packet@ {
            MqttPacketView::V311(p) => spec_process_v3(*old(core), *final(core), r, *acl, p, client_id@, username@),
            MqttPacketView::V5(p) => spec_process_v5(*old(core), *final(core), r, *acl, p, client_id@, username@),
        },
{
    match packet {
        MqttPacket::V311(p) => process_v3_packet(core, acl, p, client_id, username),
        MqttPacket::V5(p) => process_v5_packet(core, acl, p, client_id, username),
    }
}

// ==================== accepting and closing connections ====================

/// What a CONNECT carries that the broker acts on: client id, version, keep
/// alive, clean session, username, password, and the will's topic,
/// payload, QoS, retain flag and delay.
pub struct ConnectFields {
    pub client_id: String,
    pub version: ProtocolVersion,
    pub keep_alive: u16,
    pub clean_session: bool,
    pub username: Option<String>,
    pub password: Option<String>,
    pub will: Option<(String, Vec<u8>, QoS, bool, u32)>,
}

/// What a CONNECT's fields say.
pub type ConnectFieldsView = (
    Seq<char>,
    ProtocolVersion,
    u16,
    bool,
    Option<Seq<char>>,
    Option<Seq<char>>,
    Option<(Seq<char>, Seq<u8>, QoS, bool, u32)>,
);

pub open spec fn connect_fields_view(f: ConnectFields) -> ConnectFieldsView {
    (
        f.client_id@,
        f.version,
        f.keep_alive,
        f.clean_session,
        crate::v3::types::opt_string_view(f.username),
        crate::v3::types::opt_string_view(f.password),
        match f.will {
            Some(w) => Some((w.0@, w.1@, w.2, w.3, w.4)),
            None => None,
        },
    )
}

/// The fields of a CONNECT packet; `None` for any other packet. An MQTT
/// 3.1.1 will has no delay.
pub open spec fn spec_connect_fields(p: MqttPacketView) -> Option<ConnectFieldsView> {
    match p {
        MqttPacketView::V311(PacketV3View::Connect(c)) => Some(
            (
                c.client_id,
                ProtocolVersion::V311,
                c.keep_alive,
                c.clean_session,
                c.username,
                c.password,
                match c.will {
                    Some(w) => Some((w.topic, w.message, w.qos, w.retain, 0u32)),
                    None => None,
                },
            ),
        ),
        MqttPacketView::V5(PacketV5View::Connect(c)) => Some(
            (
                c.client_id,
                ProtocolVersion::V5,
                c.keep_alive,
                c.clean_start,
                c.username,
                c.password,
                match c.will {
                    Some(w) => Some((w.topic, w.payload, w.qos, w.retain, w.delay_interval)),
                    None => None,
                },
            ),
        ),
        _ => None,
    }
}

fn opt_string_copy(s: &Option<String>) -> (r: Option<String>)
    ensures
        crate::v3::types::opt_string_view(r) == crate::v3::types::opt_string_view(*s),
{
    match s {
        Some(v) => Some(v.clone()),
        None => None,
    }
}

/// The fields of a CONNECT packet; `None` for any other packet.
pub fn connect_fields(packet: &MqttPacket) -> (r: Option<ConnectFields>)
    ensures
        match r {
            Some(f) => spec_connect_fields(packet@) == Some(connect_fields_view(f)),
            None => spec_connect_fields(packet@) is None,
        },
{
    match packet {
        MqttPacket::V311(MqttPacketV3::Connect(c)) => {
            let will = match &c.will {
                Some(w) => Some((w.topic.clone(), copy_bytes(w.message.as_slice()), w.qos, w.retain, 0u32)),
                None => None,
            };
            Some(
                ConnectFields {
                    client_id: c.client_id.clone(),
                    version: ProtocolVersion::V311,
                    keep_alive: c.keep_alive,
                    clean_session: c.clean_session,
                    username: opt_string_copy(&c.username),
                    password: opt_string_copy(&c.password),
                    will,
                },
            )
        },
        MqttPacket::V5(MqttPacketV5::Connect(c)) => {
            let will = match &c.will {
                Some(w) => Some((w.topic.clone(), copy_bytes(w.payload.as_slice()), w.qos, w.retain, w.delay_interval)),
                None => None,
            };
            Some(
                ConnectFields {
                    client_id: c.client_id.clone(),
                    version: ProtocolVersion::V5,
                    keep_alive: c.keep_alive,
                    clean_session: c.clean_start,
                    username: opt_string_copy(&c.username),
                    password: opt_string_copy(&c.password),
                    will,
                },
            )
        },
        _ => None,
    }
}

/// The CONNACK for a version and an outcome: accepted, or refused for the
/// given reason; no session is ever present.
pub open spec fn spec_connack(version: ProtocolVersion, refused: Option<crate::auth::AuthErrorKind>) -> MqttPacketView {
    match version {
        ProtocolVersion::V311 => MqttPacketView::V311(
            PacketV3View::ConnAck(
                v3::types::ConnAckPacket {
                    session_present: false,
                    return_code: match refused {
                        None => v3::types::ConnectReturnCode::Accepted,
                        Some(_) => v3::types::ConnectReturnCode::NotAuthorized,
                    },
                },
            ),
        ),
        ProtocolVersion::V5 => MqttPacketView::V5(
            PacketV5View::ConnAck(
                false,
                match refused {
                    None => ReasonCode::Success,
                    Some(crate::auth::AuthErrorKind::BadUsernameOrPassword) => ReasonCode::BadUserNameOrPassword,
                    Some(_) => ReasonCode::NotAuthorized,
                },
                Seq::empty(),
            ),
        ),
    }
}

fn connack(version: ProtocolVersion, refused: Option<crate::auth::AuthErrorKind>) -> (p: MqttPacket)
    ensures
        p@ == spec_connack(version, refused),
{
    match version {
        ProtocolVersion::V311 => MqttPacket::V311(
            MqttPacketV3::ConnAck(
                v3::types::ConnAckPacket {
                    session_present: false,
                    return_code: match refused {
                        None => v3::types::ConnectReturnCode::Accepted,
                        Some(reason) => reason.to_v3_return_code(),
                    },
                },
            ),
        ),
        ProtocolVersion::V5 => MqttPacket::V5(
            MqttPacketV5::ConnAck(
                v5::types::ConnAckPacket {
                    session_present: false,
                    reason_code: match refused {
                        None => ReasonCode::Success,
                        Some(reason) => reason.to_v5_reason_code(),
                    },
                    properties: v5::properties::Properties::new(),
                },
            ),
        ),
    }
}

/// What the broker decides about a new connection's first packet.
pub enum ConnectDecision {
    /// The first packet is not a CONNECT: the connection is dropped.
    NotConnect,
    /// Authentication failed: the client gets this CONNACK and is dropped.
    Rejected { connack: MqttPacket },
    /// The client is connected under `client_id` as `username`.
    Accepted {
        client_id: String,
        username: String,
        version: ProtocolVersion,
        clean_session: bool,
        connack: MqttPacket,
        actions: Vec<BrokerAction>,
    },
}

/// The id the broker assigns to the `n`th client that gives none.
pub open spec fn spec_assigned_id(n: u64) -> Seq<char> {
    "anonymous_"@ + crate::text::spec_decimal(n as nat)
}

/// Generate a unique anonymous client ID ("anonymous_" and a counter).
pub fn generate_client_id(core: &mut BrokerCore) -> (id: String)
    ensures
        old(core).wf() ==> final(core).wf(),
        id@ == spec_assigned_id(old(core).next_client_id),
        final(core).next_client_id == old(core).next_client_id.wrapping_add(1),
        final(core).sessions == old(core).sessions,
        final(core).subscriptions == old(core).subscriptions,
        final(core).retained == old(core).retained,
        final(core).wills == old(core).wills,
        final(core).metrics == old(core).metrics,
{
    let n = core.next_client_id;
    core.next_client_id = n.wrapping_add(1);
    let digits = crate::text::decimal(n);
    let mut chars = crate::text::chars_of("anonymous_");
    let digit_chars = crate::text::chars_of(digits.as_str());
    crate::text::append_chars(&mut chars, digit_chars.as_slice());
    crate::text::string_from_chars(chars.as_slice())
}

/// Room in the counters for one more connected client.
pub open spec fn room_for_client(m: crate::metrics::BrokerMetrics) -> bool {
    m.clients_connected < u64::MAX && m.clients_total < u64::MAX
}

/// What accepting a connection does, given its fields, the authenticated
/// username and the client id it is known by: the session stored, the will
/// stored, the client counted, and the will and session recorded.
pub open spec fn spec_accept_effect(before: BrokerCore, after: BrokerCore, acts: Seq<ActionView>, f: ConnectFieldsView, user: Seq<char>, cid: Seq<char>) -> bool {
    let (_, version, keep_alive, clean, _, _, will) = f;
    &&& sessions_view(after.sessions) == spec_mark_disconnected(sessions_view(before.sessions), cid).insert(
        cid,
        (cid, version, clean, keep_alive, true, Some(user)),
    )
    &&& wills_view(after.wills) == (match will {
        Some(w) => wills_view(before.wills).insert(cid, (cid, w.0, w.1, w.2, w.3, w.4)),
        None => wills_view(before.wills),
    })
    &&& after.metrics == (crate::metrics::BrokerMetrics {
        clients_connected: (before.metrics.clients_connected + 1) as u64,
        clients_total: (before.metrics.clients_total + 1) as u64,
        ..before.metrics
    })
    &&& after.subscriptions == before.subscriptions
    &&& after.retained == before.retained
    &&& acts == (match will {
        Some(w) => seq![
            ActionView::Persist(
                EventView::SaveWill {
                    client_id: cid,
                    topic: w.0,
                    payload: w.1,
                    qos: spec_qos_to_db(w.2),
                    retain: w.3,
                    delay_interval: w.4,
                },
            ),
        ],
        None => Seq::empty(),
    }) + seq![
        ActionView::Persist(
            EventView::SaveSession {
                client_id: cid,
                protocol_version: crate::persistence::spec_version_to_db(version),
                clean_session: clean,
                keep_alive,
                username: Some(user),
            },
        ),
    ]
}

/// What deciding about a connection's first packet does: a packet that is
/// not a CONNECT is dropped; a CONNECT whose credentials are refused gets a
/// refusing CONNACK and changes nothing; an accepted one is stored under its
/// client id (assigned when it gives none) as `spec_accept_effect` says, and
/// answered with an accepting CONNACK.
pub open spec fn spec_accept_decision(
    before: BrokerCore,
    after: BrokerCore,
    config: BrokerConfig,
    authenticator: Authenticator,
    packet: MqttPacketView,
    d: ConnectDecision,
) -> bool {
    match spec_connect_fields(packet) {
        None => d is NotConnect && after == before,
        Some(f) => match spec_authenticate(
            authenticator.file_based(),
            authenticator.users(),
            config.allow_anonymous,
            f.4,
            f.5,
        ) {
            AuthOutcome::Denied(reason) => {
                &&& d matches ConnectDecision::Rejected { connack } && connack@ == spec_connack(f.1, Some(reason))
                &&& after == before
            },
            AuthOutcome::Success(user) => {
                let assigned = f.0.len() == 0;
                let cid = if assigned { spec_assigned_id(before.next_client_id) } else { f.0 };
                &&& d matches ConnectDecision::Accepted { client_id, username, version, clean_session, connack, actions } && {
                    &&& client_id@ == cid
                    &&& username@ == user
                    &&& version == f.1
                    &&& clean_session == f.3
                    &&& connack@ == spec_connack(f.1, None)
                    &&& spec_accept_effect(before, after, actions_view(actions@), f, user, cid)
                }
                &&& after.next_client_id == (if assigned {
                    before.next_client_id.wrapping_add(1)
                } else {
                    before.next_client_id
                })
            },
        },
    }
}

/// Decide about a new connection from its first packet: authenticate the
/// CONNECT, assign a client id when it gives none, store its session and
/// will, and answer with a CONNACK.
pub fn accept_connection(core: &mut BrokerCore, config: &BrokerConfig, authenticator: &Authenticator, packet: &MqttPacket) -> (d: ConnectDecision)
    requires
        room_for_client(old(core).metrics),
    ensures
        old(core).wf() ==> final(core).wf(),
        spec_accept_decision(*old(core), *final(core), *config, *authenticator, packet@, d),
{
    let fields = match connect_fields(packet) {
        Some(f) => f,
        None => return ConnectDecision::NotConnect,
    };
    let ghost fv = connect_fields_view(fields);

    // ── Authentication check ──
    let user_arg = match &fields.username {
        Some(u) => Some(u.as_str()),
        None => None,
    };
    let pass_arg = match &fields.password {
        Some(p) => Some(p.as_str()),
        None => None,
    };
    assert(opt_str_view(user_arg) == fv.4);
    assert(opt_str_view(pass_arg) == fv.5);
    let verdict = authenticator.authenticate(config.allow_anonymous, user_arg, pass_arg);
    let username = match verdict {
        AuthResult::Success { username } => username,
        AuthResult::Denied { reason } => {
            return ConnectDecision::Rejected { connack: connack(fields.version, Some(reason)) };
        },
    };

    // Handle empty client ID
    let client_id = if crate::text::chars_of(fields.client_id.as_str()).len() == 0 {
        generate_client_id(core)
    } else {
        fields.client_id
    };
    let ghost cid = client_id@;

    // Check existing session (force disconnect), then create the session
    crate::broker::session_mark_disconnected(&mut core.sessions, client_id.as_str());
    let session = SessionState::new(
        client_id.clone(),
        fields.version,
        fields.clean_session,
        fields.keep_alive,
        Some(username.clone()),
    );
    crate::broker::session_set(&mut core.sessions, session);
    core.metrics.increment_clients_connected();

    let mut actions: Vec<BrokerAction> = Vec::new();
    // Store will message if provided in CONNECT
    match fields.will {
        Some((topic, payload, qos, retain, delay_interval)) => {
            let will = WillMessage {
                client_id: client_id.clone(),
                topic: topic.clone(),
                payload: copy_bytes(payload.as_slice()),
                qos,
                retain,
                delay_interval,
                created_at: crate::session::now(),
            };
            crate::broker::will_set(&mut core.wills, will);
            push_action(
                &mut actions,
                BrokerAction::Persist(
                    PersistEvent::SaveWill {
                        client_id: client_id.clone(),
                        topic,
                        payload,
                        qos: qos_to_db(qos),
                        retain,
                        delay_interval,
                    },
                ),
            );
        },
        None => {},
    }

    // Save session to persistence
    push_action(
        &mut actions,
        BrokerAction::Persist(
            PersistEvent::SaveSession {
                client_id: client_id.clone(),
                protocol_version: crate::persistence::version_to_db(fields.version),
                clean_session: fields.clean_session,
                keep_alive: fields.keep_alive,
                username: Some(username.clone()),
            },
        ),
    );

    assert(sessions_view(core.sessions) == spec_mark_disconnected(sessions_view(old(core).sessions), cid).insert(
        cid,
        (cid, fv.1, fv.3, fv.2, true, Some(username@)),
    ));
    assert(wills_view(core.wills) == (match fv.6 {
        Some(w) => wills_view(old(core).wills).insert(cid, (cid, w.0, w.1, w.2, w.3, w.4)),
        None => wills_view(old(core).wills),
    }));
    assert(actions_view(actions@) =~= (match fv.6 {
        Some(w) => seq![
            ActionView::Persist(
                EventView::SaveWill {
                    client_id: cid,
                    topic: w.0,
                    payload: w.1,
                    qos: spec_qos_to_db(w.2),
                    retain: w.3,
                    delay_interval: w.4,
                },
            ),
        ],
        None => Seq::empty(),
    }) + seq![
        ActionView::Persist(
            EventView::SaveSession {
                client_id: cid,
                protocol_version: crate::persistence::spec_version_to_db(fv.1),
                clean_session: fv.3,
                keep_alive: fv.2,
                username: Some(username@),
            },
        ),
    ]);
    assert(spec_accept_effect(*old(core), *core, actions_view(actions@), fv, username@, cid));
    ConnectDecision::Accepted {
        client_id,
        username,
        version: fields.version,
        clean_session: fields.clean_session,
        connack: connack(fields.version, None),
        actions,
    }
}

/// Decide about a WebSocket connection's first packet. The MQTT-over-
/// WebSocket endpoint mirrors the TCP one: the CONNECT is authenticated,
/// and accepted or refused, exactly as `accept_connection` decides.
pub fn accept_ws_connection(core: &mut BrokerCore, config: &BrokerConfig, authenticator: &Authenticator, packet: &MqttPacket) -> (d: ConnectDecision)
    requires
        room_for_client(old(core).metrics),
    ensures
        old(core).wf() ==> final(core).wf(),
        spec_accept_decision(*old(core), *final(core), *config, *authenticator, packet@, d),
{
    accept_connection(core, config, authenticator, packet)
}

/// Close a connection: one client fewer connected, its session marked
/// disconnected; returns the message that tells the router.
pub fn close_connection(core: &mut BrokerCore, client_id: &str, clean_session: bool) -> (m: BrokerMessage)
    ensures
        old(core).wf() ==> final(core).wf(),
        m@ == (MessageView::ClientDisconnected { client_id: client_id@, clean_session }),
        sessions_view(final(core).sessions) == spec_mark_disconnected(sessions_view(old(core).sessions), client_id@),
        final(core).metrics == (crate::metrics::BrokerMetrics {
            clients_connected: if old(core).metrics.clients_connected > 0 {
                (old(core).metrics.clients_connected - 1) as u64
            } else {
                0
            },
            ..old(core).metrics
        }),
        final(core).subscriptions == old(core).subscriptions,
        final(core).retained == old(core).retained,
        final(core).wills == old(core).wills,
        final(core).next_client_id == old(core).next_client_id,
{
    core.metrics.decrement_clients_connected();
    crate::broker::session_mark_disconnected(&mut core.sessions, client_id);
    BrokerMessage::ClientDisconnected { client_id: client_id.to_owned(), clean_session }
}

// ==================== the background router ====================

/// `subs` is what the subscription tree `tree` routes `topic` to: each
/// stored subscription whose filter matches, once.
pub open spec fn spec_routed_to(tree: Seq<SubscriptionView>, topic: Seq<char>, subs: Seq<SubscriptionView>) -> bool {
    &&& view_keys_distinct(subs)
    &&& forall|x: SubscriptionView| #[trigger] subs.contains(x) <==> tree.contains(x) && trie_match(
        topic_levels(x.1),
        topic_levels(topic),
    )
}

/// What routing a message to the subscribers `subs` asks for: each
/// subscriber's connection gets the QoS 0 PUBLISH, then each subscriber's
/// web channel gets a notice of kind `kind`.
pub open spec fn spec_route_actions(
    subs: Seq<SubscriptionView>,
    topic: Seq<char>,
    payload: Seq<u8>,
    qos: QoS,
    retain: bool,
    kind: Seq<char>,
    source: Seq<char>,
) -> Seq<ActionView> {
    subs.map_values(|s: SubscriptionView| ActionView::Deliver(s.0, spec_forward_bytes(topic, payload, retain)))
        + subs.map_values(|s: SubscriptionView| ActionView::Notify(s.0, (kind, topic, payload, qos, source)))
}

/// The deliveries and notices of a routed message.
fn route_to(
    subscribers: &Vec<Subscription>,
    topic: &str,
    payload: &[u8],
    qos: QoS,
    retain: bool,
    kind: &str,
    source: &str,
) -> (actions: Vec<BrokerAction>)
    ensures
        actions_view(actions@) == spec_route_actions(subs_view(subscribers@), topic@, payload@, qos, retain, kind@, source@),
{
    let ghost sv = subs_view(subscribers@);
    let ghost deliver = |s: SubscriptionView| ActionView::Deliver(s.0, spec_forward_bytes(topic@, payload@, retain));
    let ghost notify = |s: SubscriptionView| ActionView::Notify(s.0, (kind@, topic@, payload@, qos, source@));
    let mut actions: Vec<BrokerAction> = Vec::new();
    let bytes = forward_bytes(topic, payload, retain);
    let mut i: usize = 0;
    while i < subscribers.len()
        invariant
            i <= subscribers.len(),
            sv == subs_view(subscribers@),
            bytes@ == spec_forward_bytes(topic@, payload@, retain),
            deliver == (|s: SubscriptionView| ActionView::Deliver(s.0, spec_forward_bytes(topic@, payload@, retain))),
            actions_view(actions@) == sv.take(i as int).map_values(deliver),
        decreases subscribers.len() - i,
    {
        let sub = &subscribers[i];
        let ghost before = actions_view(actions@);
        push_action(&mut actions, BrokerAction::Deliver { client_id: sub.client_id.clone(), bytes: copy_bytes(bytes.as_slice()) });
        assert(sv[i as int].0 == sub.client_id@);
        i = i + 1;
        assert(actions_view(actions@) =~= sv.take(i as int).map_values(deliver));
    }
    assert(sv.take(i as int) =~= sv);
    let ghost delivered = actions_view(actions@);
    let mut j: usize = 0;
    while j < subscribers.len()
        invariant
            j <= subscribers.len(),
            sv == subs_view(subscribers@),
            notify == (|s: SubscriptionView| ActionView::Notify(s.0, (kind@, topic@, payload@, qos, source@))),
            delivered == sv.map_values(deliver),
            actions_view(actions@) == delivered + sv.take(j as int).map_values(notify),
        decreases subscribers.len() - j,
    {
        let sub = &subscribers[j];
        let notice = WebNotice {
            kind: kind.to_owned(),
            topic: topic.to_owned(),
            payload: copy_bytes(payload),
            qos,
            source_client: source.to_owned(),
        };
        push_action(&mut actions, BrokerAction::Notify { subscriber_id: sub.client_id.clone(), notice });
        assert(sv[j as int].0 == sub.client_id@);
        j = j + 1;
        assert(actions_view(actions@) =~= delivered + sv.take(j as int).map_values(notify));
    }
    assert(sv.take(j as int) =~= sv);
    actions
}

/// Route a published message: deliver it to each subscriber whose filter
/// matches its topic, in the order `lookup` returns them, notify their web
/// channels, count it, and keep it as
/// the topic's retained message when it is retained.
pub fn route_publish(
    core: &mut BrokerCore,
    topic: &String,
    payload: &Vec<u8>,
    qos: QoS,
    retain: bool,
    source_client: &String,
) -> (actions: Vec<BrokerAction>)
    requires
        old(core).metrics.messages_published < u64::MAX,
    ensures
        old(core).wf() ==> final(core).wf(),
        exists|subs: Seq<SubscriptionView>|
            #[trigger] spec_routed_to(old(core).subscriptions@, topic@, subs) && actions_view(actions@) == spec_route_actions(
                subs,
                topic@,
                payload@,
                qos,
                false,
                "publish"@,
                source_client@,
            ),
        actions_view(actions@) == spec_route_actions(
            old(core).subscriptions.spec_lookup(topic@),
            topic@,
            payload@,
            qos,
            false,
            "publish"@,
            source_client@,
        ),
        retained_view(final(core).retained) == (if retain {
            retained_view(old(core).retained).insert(topic@, (topic@, payload@, qos))
        } else {
            retained_view(old(core).retained)
        }),
        !retain ==> final(core).retained == old(core).retained,
        final(core).metrics == (crate::metrics::BrokerMetrics {
            messages_published: (old(core).metrics.messages_published + 1) as u64,
            ..old(core).metrics
        }),
        final(core).sessions == old(core).sessions,
        final(core).subscriptions == old(core).subscriptions,
        final(core).wills == old(core).wills,
        final(core).next_client_id == old(core).next_client_id,
{
    // Find subscribers
    let subscribers = core.subscriptions.lookup(topic.as_str());
    core.metrics.increment_messages_published();
    let actions = route_to(&subscribers, topic.as_str(), payload.as_slice(), qos, false, "publish", source_client.as_str());
    assert(spec_routed_to(old(core).subscriptions@, topic@, subs_view(subscribers@)));
    // Handle retained messages
    if retain {
        retained_set(&mut core.retained, RetainedMessage::new(topic.clone(), copy_bytes(payload.as_slice()), qos));
    }
    actions
}

/// What the router does with a disconnected client's will, given the will
/// (as stored) and the subscribers of its topic: deliver it, keep it as
/// retained when it is retained, and forget it.
pub open spec fn spec_will_actions(client: Seq<char>, w: WillView, subs: Seq<SubscriptionView>) -> Seq<ActionView> {
    spec_route_actions(subs, w.1, w.2, w.3, w.4, "will"@, client) + seq![ActionView::Persist(EventView::RemoveWill(client))]
}

/// The persistence events that end a disconnected client's clean session.
pub open spec fn spec_disconnect_tail(client: Seq<char>, clean_session: bool) -> Seq<ActionView> {
    if clean_session {
        seq![
            ActionView::Persist(EventView::RemoveClientSubscriptions(client)),
            ActionView::Persist(EventView::RemoveSession(client)),
        ]
    } else {
        Seq::empty()
    }
}

/// Deliver and forget the will of a disconnected client, if it has one.
fn deliver_will(core: &mut BrokerCore, client_id: &str) -> (actions: Vec<BrokerAction>)
    ensures
        old(core).wf() ==> final(core).wf(),
        match key_index_will(wills_view(old(core).wills), client_id@) {
            Some(w) => {
                &&& exists|subs: Seq<SubscriptionView>|
                    #[trigger] spec_routed_to(old(core).subscriptions@, w.1, subs) && actions_view(actions@)
                        == spec_will_actions(client_id@, w, subs)
                &&& retained_view(final(core).retained) == (if w.4 {
                    retained_view(old(core).retained).insert(w.1, (w.1, w.2, w.3))
                } else {
                    retained_view(old(core).retained)
                })
            },
            None => actions_view(actions@).len() == 0 && final(core).retained == old(core).retained,
        },
        wills_view(final(core).wills) == wills_view(old(core).wills).remove(client_id@),
        final(core).subscriptions == old(core).subscriptions,
        final(core).sessions == old(core).sessions,
        final(core).metrics == old(core).metrics,
        final(core).next_client_id == old(core).next_client_id,
{
    let ghost ws = wills_view(core.wills);
    let mut actions: Vec<BrokerAction> = Vec::new();
    match crate::broker::will_take(&mut core.wills, client_id) {
        Some(will) => {
            // Find subscribers for the will topic
            let subscribers = core.subscriptions.lookup(will.topic.as_str());
            let routed = route_to(
                &subscribers,
                will.topic.as_str(),
                will.payload.as_slice(),
                will.qos,
                will.retain,
                "will",
                client_id,
            );
            append_actions(&mut actions, routed);
            assert(spec_routed_to(old(core).subscriptions@, will.topic@, subs_view(subscribers@)));
            // Handle retain
            if will.retain {
                retained_set(
                    &mut core.retained,
                    RetainedMessage::new(will.topic.clone(), copy_bytes(will.payload.as_slice()), will.qos),
                );
            }
            push_action(&mut actions, BrokerAction::Persist(PersistEvent::RemoveWill(client_id.to_owned())));
            proof {
                assert(ws[client_id@] == will_view(will));
                assert(actions_view(actions@) =~= spec_will_actions(client_id@, ws[client_id@], subs_view(subscribers@)));
            }
        },
        None => {},
    }
    actions
}

/// Handle a client's disconnection in the router: deliver and forget its
/// will, if it has one; then for a clean session forget its subscriptions
/// and session, else mark the session disconnected.
pub fn route_disconnect(core: &mut BrokerCore, client_id: &str, clean_session: bool) -> (actions: Vec<BrokerAction>)
    ensures
        old(core).wf() ==> final(core).wf(),
        match key_index_will(wills_view(old(core).wills), client_id@) {
            Some(w) => {
                &&& exists|subs: Seq<SubscriptionView>|
                    #[trigger] spec_routed_to(old(core).subscriptions@, w.1, subs) && actions_view(actions@)
                        == spec_will_actions(client_id@, w, subs) + spec_disconnect_tail(client_id@, clean_session)
                &&& retained_view(final(core).retained) == (if w.4 {
                    retained_view(old(core).retained).insert(w.1, (w.1, w.2, w.3))
                } else {
                    retained_view(old(core).retained)
                })
            },
            None => actions_view(actions@) == spec_disconnect_tail(client_id@, clean_session) && final(core).retained
                == old(core).retained,
        },
        wills_view(final(core).wills) == wills_view(old(core).wills).remove(client_id@),
        clean_session ==> {
            &&& final(core).subscriptions@.to_set() == old(core).subscriptions@.to_set().filter(
                |x: SubscriptionView| x.0 != client_id@,
            )
            &&& sessions_view(final(core).sessions) == sessions_view(old(core).sessions).remove(client_id@)
            &&& final(core).metrics == (crate::metrics::BrokerMetrics {
                subscriptions_active: spec_count_metric(final(core).subscriptions@.len()),
                ..old(core).metrics
            })
        },
        !clean_session ==> {
            &&& final(core).subscriptions == old(core).subscriptions
            &&& sessions_view(final(core).sessions) == spec_mark_disconnected(
                sessions_view(old(core).sessions),
                client_id@,
            )
            &&& final(core).metrics == old(core).metrics
        },
        final(core).next_client_id == old(core).next_client_id,
{
    // Handle will message: publish it to subscribers
    let mut actions = deliver_will(core, client_id);
    let ghost after_will = actions_view(actions@);
    if clean_session {
        // Clean session: remove all state for this client
        core.subscriptions.unsubscribe_all(client_id);
        push_action(&mut actions, BrokerAction::Persist(PersistEvent::RemoveClientSubscriptions(client_id.to_owned())));
        crate::broker::session_remove(&mut core.sessions, client_id);
        push_action(&mut actions, BrokerAction::Persist(PersistEvent::RemoveSession(client_id.to_owned())));
        let n = core.subscriptions.count();
        core.metrics.subscriptions_active = n as u64;
    } else {
        // Non-clean session: mark session as disconnected but keep subscriptions
        crate::broker::session_mark_disconnected(&mut core.sessions, client_id);
    }
    assert(actions_view(actions@) =~= after_will + spec_disconnect_tail(client_id@, clean_session));
    actions
}

/// A will removed by a clean DISCONNECT is gone: when the connection then
/// closes, the router finds no will of the client to deliver.
pub proof fn lemma_clean_disconnect_leaves_no_will(ws: Map<Seq<char>, WillView>, client: Seq<char>)
    ensures
        key_index_will(ws.remove(client), client) is None,
{
}

/// The will of `client`, if any.
pub open spec fn key_index_will(ws: Map<Seq<char>, WillView>, client: Seq<char>) -> Option<WillView> {
    if ws.dom().contains(client) {
        Some(ws[client])
    } else {
        None
    }
}

} // verus!
