//! MQTT 5.0 packet encoder/decoder.

use vstd::prelude::*;
use bytes::BytesMut;
use crate::common::{
    QoS, PacketType, MqttError, MqttResult, Fault, invalid, spec_encode_string, spec_u16_be,
    spec_frame, be16, spec_string_at, string_at, spec_binary_at, binary_at, spec_decode_varint,
    decode_remaining_length, append_bytes, push_u16_be, read_u16_be, frame, push_string,
    concat_map, lemma_concat_map_push, lemma_string_at_advances, fits_u16_string,
    lemma_string_at_concat, lemma_binary_at_concat, lemma_u16_be_roundtrip,
};
use crate::text::{buffer_bytes, buffer_from_slice, buffer_as_slice};
use crate::v5::properties::{
    Properties, PropertyId, PropertyValueView, spec_encode_props, spec_decode_props, spec_first_u32,
    props_well_formed, lemma_props_roundtrip,
};
use crate::v5::types::{
    ReasonCode, ConnectPacket, Will, ConnAckPacket, PublishPacket, PubAckPacket, PubRecPacket,
    PubRelPacket, PubCompPacket, SubscribePacket, SubscribeFilter, RetainHandling, SubAckPacket,
    UnsubscribePacket, UnsubAckPacket, PingReqPacket, PingRespPacket, DisconnectPacket, AuthPacket,
    MqttPacketV5, PropsView, WillV5View, ConnectV5View, PublishV5View, AckV5View,
    SubscribeFilterV5View, CodesV5View, ReasonV5View, PacketV5View, opt_will_v5_view,
    filters_v5_view,
};
use crate::v3::types::{opt_string_view, strings_view};

verus! {

/// Maximum packet size for MQTT 5.0 (default 10 MB).
pub const MAX_PACKET_SIZE: usize = 10485760;

// ==================== what each packet is on the wire ====================

/// The connect flags byte: clean start (bit 1), will (bit 2), will QoS
/// (bits 3-4), will retain (bit 5), password (bit 6), username (bit 7).
pub open spec fn spec_connect_flags(p: ConnectV5View) -> u8 {
    ((if p.clean_start { 2int } else { 0int }) + (match p.will {
        Some(w) => 4 + w.qos.spec_to_u8() * 8 + (if w.retain { 0x20int } else { 0int }),
        None => 0int,
    }) + (if p.password is Some { 0x40int } else { 0int }) + (if p.username is Some {
        0x80int
    } else {
        0int
    })) as u8
}

/// An optional string on the wire: its encoding when present, nothing otherwise.
pub open spec fn spec_opt_string(s: Option<Seq<char>>) -> Seq<u8> {
    match s {
        Some(v) => spec_encode_string(v),
        None => Seq::empty(),
    }
}

/// The will part of a CONNECT payload: will properties, topic, then the
/// payload with its 16-bit length (the low 16 bits of the payload length).
pub open spec fn spec_will_bytes(w: Option<WillV5View>) -> Seq<u8> {
    match w {
        Some(w) => spec_encode_props(w.properties) + spec_encode_string(w.topic) + spec_u16_be(
            w.payload.len() as u16,
        ) + w.payload,
        None => Seq::empty(),
    }
}

/// The CONNECT body: protocol name "MQTT", level 5, flags, keep alive,
/// properties, client id, will, username, password.
pub open spec fn spec_connect_body(p: ConnectV5View) -> Seq<u8> {
    seq![0x00u8, 0x04, 0x4D, 0x51, 0x54, 0x54, 0x05, spec_connect_flags(p)] + spec_u16_be(p.keep_alive)
        + spec_encode_props(p.properties) + spec_encode_string(p.client_id) + spec_will_bytes(p.will)
        + spec_opt_string(p.username) + spec_opt_string(p.password)
}

/// Whether PUBLISH carries its packet identifier: it has one and its QoS is above 0.
pub open spec fn spec_publish_has_id(p: PublishV5View) -> bool {
    p.packet_id is Some && p.qos != QoS::AtMostOnce
}

/// The PUBLISH fixed-header byte: type 3, QoS and RETAIN flags (DUP clear).
pub open spec fn spec_publish_header(p: PublishV5View) -> u8 {
    (0x30 + p.qos.spec_to_u8() * 2 + (if p.retain { 1int } else { 0int })) as u8
}

/// The PUBLISH body: topic, properties, the packet identifier when QoS is
/// above 0, payload.
pub open spec fn spec_publish_body(p: PublishV5View) -> Seq<u8> {
    spec_encode_string(p.topic) + spec_encode_props(p.properties) + (if spec_publish_has_id(p) {
        spec_u16_be(p.packet_id.unwrap())
    } else {
        Seq::empty()
    }) + p.payload
}

/// The body of PUBACK, PUBREC, PUBREL and PUBCOMP: packet id, reason code, properties.
pub open spec fn spec_ack_body(a: AckV5View) -> Seq<u8> {
    spec_u16_be(a.packet_id) + seq![a.reason_code.spec_to_u8()] + spec_encode_props(a.properties)
}

/// The subscription options byte: QoS (bits 0-1), no local (bit 2), retain
/// as published (bit 3), retain handling (bits 4-5).
pub open spec fn spec_sub_options(f: SubscribeFilterV5View) -> u8 {
    (f.qos.spec_to_u8() + (if f.no_local { 0x04int } else { 0int }) + (if f.retain_as_published {
        0x08int
    } else {
        0int
    }) + f.retain_handling.spec_to_u8() * 16) as u8
}

/// One SUBSCRIBE entry: the filter string, then its options byte.
pub open spec fn spec_sub_entry(f: SubscribeFilterV5View) -> Seq<u8> {
    spec_encode_string(f.path) + seq![spec_sub_options(f)]
}

/// The reason-code bytes of a SUBACK or UNSUBACK.
pub open spec fn spec_reason_bytes(codes: Seq<ReasonCode>) -> Seq<u8> {
    codes.map_values(|c: ReasonCode| c.spec_to_u8())
}

/// The body of SUBACK and UNSUBACK: packet id, properties, reason codes.
pub open spec fn spec_codes_body(c: CodesV5View) -> Seq<u8> {
    spec_u16_be(c.packet_id) + spec_encode_props(c.properties) + spec_reason_bytes(c.reason_codes)
}

/// The body of DISCONNECT and AUTH: reason code, properties.
pub open spec fn spec_reason_body(r: ReasonV5View) -> Seq<u8> {
    seq![r.reason_code.spec_to_u8()] + spec_encode_props(r.properties)
}

/// The fixed-header byte of a packet.
pub open spec fn spec_v5_first_byte(p: PacketV5View) -> u8 {
    match p {
        PacketV5View::Connect(_) => 0x10,
        PacketV5View::ConnAck(_, _, _) => 0x20,
        PacketV5View::Publish(x) => spec_publish_header(x),
        PacketV5View::PubAck(_) => 0x40,
        PacketV5View::PubRec(_) => 0x50,
        PacketV5View::PubRel(_) => 0x62,
        PacketV5View::PubComp(_) => 0x70,
        PacketV5View::Subscribe(_, _, _) => 0x82,
        PacketV5View::SubAck(_) => 0x90,
        PacketV5View::Unsubscribe(_, _, _) => 0xA2,
        PacketV5View::UnsubAck(_) => 0xB0,
        PacketV5View::PingReq => 0xC0,
        PacketV5View::PingResp => 0xD0,
        PacketV5View::Disconnect(_) => 0xE0,
        PacketV5View::Auth(_) => 0xF0,
    }
}

/// The body of a packet: everything after the remaining length.
pub open spec fn spec_v5_body(p: PacketV5View) -> Seq<u8> {
    match p {
        PacketV5View::Connect(c) => spec_connect_body(c),
        PacketV5View::ConnAck(sp, rc, props) => seq![if sp { 1u8 } else { 0u8 }, rc.spec_to_u8()]
            + spec_encode_props(props),
        PacketV5View::Publish(x) => spec_publish_body(x),
        PacketV5View::PubAck(a) => spec_ack_body(a),
        PacketV5View::PubRec(a) => spec_ack_body(a),
        PacketV5View::PubRel(a) => spec_ack_body(a),
        PacketV5View::PubComp(a) => spec_ack_body(a),
        PacketV5View::Subscribe(id, fs, props) => spec_u16_be(id) + spec_encode_props(props) + concat_map(
            fs,
            |f: SubscribeFilterV5View| spec_sub_entry(f),
        ),
        PacketV5View::SubAck(c) => spec_codes_body(c),
        PacketV5View::Unsubscribe(id, fs, props) => spec_u16_be(id) + spec_encode_props(props) + concat_map(
            fs,
            |f: Seq<char>| spec_encode_string(f),
        ),
        PacketV5View::UnsubAck(c) => spec_codes_body(c),
        PacketV5View::Disconnect(r) => spec_reason_body(r),
        PacketV5View::Auth(r) => spec_reason_body(r),
        _ => Seq::empty(),
    }
}

/// The wire form of an MQTT 5.0 packet.
pub open spec fn spec_encode_v5(p: PacketV5View) -> Seq<u8> {
    spec_frame(spec_v5_first_byte(p), spec_v5_body(p))
}

// ==================== encoders ====================

/// Encode a MQTT 5.0 packet into bytes.
pub fn encode_packet(packet: &MqttPacketV5) -> (r: MqttResult<BytesMut>)
    ensures
        r matches Ok(b) && buffer_bytes(b) == spec_encode_v5(packet@),
{
    match packet {
        MqttPacketV5::Connect(p) => encode_connect(p),
        MqttPacketV5::ConnAck(p) => encode_connack(p),
        MqttPacketV5::Publish(p) => encode_publish(p),
        MqttPacketV5::PubAck(p) => encode_puback(p),
        MqttPacketV5::PubRec(p) => encode_pubrec(p),
        MqttPacketV5::PubRel(p) => encode_pubrel(p),
        MqttPacketV5::PubComp(p) => encode_pubcomp(p),
        MqttPacketV5::Subscribe(p) => encode_subscribe(p),
        MqttPacketV5::SubAck(p) => encode_suback(p),
        MqttPacketV5::Unsubscribe(p) => encode_unsubscribe(p),
        MqttPacketV5::UnsubAck(p) => encode_unsuback(p),
        MqttPacketV5::PingReq(_) => encode_pingreq(),
        MqttPacketV5::PingResp(_) => encode_pingresp(),
        MqttPacketV5::Disconnect(p) => encode_disconnect(p),
        MqttPacketV5::Auth(p) => encode_auth(p),
    }
}

/// Frame a body behind its fixed-header byte into a buffer.
fn framed(first: u8, body: &Vec<u8>) -> (r: MqttResult<BytesMut>)
    ensures
        r matches Ok(b) && buffer_bytes(b) == spec_frame(first, body@),
{
    let out = frame(first, body.as_slice());
    Ok(buffer_from_slice(out.as_slice()))
}

/// The connect flags byte of a CONNECT packet.
fn connect_flags(packet: &ConnectPacket) -> (flags: u8)
    ensures
        flags == spec_connect_flags(packet@),
{
    // Each flag is its own bit, so adding them sets them.
    let mut flags: u8 = 0;
    if packet.clean_start {
        flags = flags + 0x02;
    }
    match &packet.will {
        Some(will) => {
            flags = flags + 0x04;
            flags = flags + will.qos.to_u8() * 8;
            if will.retain {
                flags = flags + 0x20;
            }
        },
        None => {},
    }
    if packet.password.is_some() {
        flags = flags + 0x40;
    }
    if packet.username.is_some() {
        flags = flags + 0x80;
    }
    flags
}

/// The CONNECT payload: client id, will, username, password.
fn connect_payload(packet: &ConnectPacket) -> (payload: Vec<u8>)
    ensures
        payload@ == spec_encode_string(packet@.client_id) + spec_will_bytes(packet@.will)
            + spec_opt_string(packet@.username) + spec_opt_string(packet@.password),
{
    let mut payload: Vec<u8> = Vec::new();
    push_string(&mut payload, packet.client_id.as_str());
    let ghost after_id = payload@;
    match &packet.will {
        Some(will) => {
            let props = will.properties.encode();
            append_bytes(&mut payload, props.as_slice());
            push_string(&mut payload, will.topic.as_str());
            let msg_len = will.payload.len();
            push_u16_be(&mut payload, msg_len as u16);
            append_bytes(&mut payload, will.payload.as_slice());
        },
        None => {},
    }
    assert(payload@ =~= after_id + spec_will_bytes(packet@.will));
    let ghost after_will = payload@;
    match &packet.username {
        Some(username) => push_string(&mut payload, username.as_str()),
        None => {},
    }
    assert(payload@ =~= after_will + spec_opt_string(packet@.username));
    let ghost after_user = payload@;
    match &packet.password {
        Some(password) => push_string(&mut payload, password.as_str()),
        None => {},
    }
    assert(payload@ =~= after_user + spec_opt_string(packet@.password));
    payload
}

/// Encode a CONNECT packet.
pub fn encode_connect(packet: &ConnectPacket) -> (r: MqttResult<BytesMut>)
    ensures
        r matches Ok(b) && buffer_bytes(b) == spec_encode_v5(PacketV5View::Connect(packet@)),
{
    let mut remaining: Vec<u8> = Vec::new();
    remaining.push(0x00);
    remaining.push(0x04);
    remaining.push(0x4D);
    remaining.push(0x51);
    remaining.push(0x54);
    remaining.push(0x54);
    remaining.push(0x05);
    remaining.push(connect_flags(packet));
    push_u16_be(&mut remaining, packet.keep_alive);
    let props = packet.properties.encode();
    append_bytes(&mut remaining, props.as_slice());
    let payload = connect_payload(packet);
    append_bytes(&mut remaining, payload.as_slice());
    assert(remaining@ =~= spec_connect_body(packet@));
    framed(PacketType::Connect.to_u8(), &remaining)
}

/// Encode a CONNACK packet.
pub fn encode_connack(packet: &ConnAckPacket) -> (r: MqttResult<BytesMut>)
    ensures
        r matches Ok(b) && buffer_bytes(b) == spec_encode_v5(
            PacketV5View::ConnAck(packet.session_present, packet.reason_code, packet.properties@),
        ),
{
    let mut body: Vec<u8> = Vec::new();
    body.push(if packet.session_present { 0x01 } else { 0x00 });
    body.push(packet.reason_code.to_u8());
    let props = packet.properties.encode();
    append_bytes(&mut body, props.as_slice());
    framed(PacketType::ConnAck.to_u8(), &body)
}

/// Encode a PUBLISH packet.
pub fn encode_publish(packet: &PublishPacket) -> (r: MqttResult<BytesMut>)
    ensures
        r matches Ok(b) && buffer_bytes(b) == spec_encode_v5(PacketV5View::Publish(packet@)),
{
    // Type, QoS and RETAIN occupy distinct bits, so adding them sets them.
    // DUP is set only when re-delivering.
    let mut fixed_byte = PacketType::Publish.to_u8();
    fixed_byte = fixed_byte + packet.qos.to_u8() * 2;
    if packet.retain {
        fixed_byte = fixed_byte + 0x01;
    }

    let mut variable: Vec<u8> = Vec::new();
    push_string(&mut variable, packet.topic.as_str());
    let props = packet.properties.encode();
    append_bytes(&mut variable, props.as_slice());
    let ghost before_id = variable@;
    match packet.packet_id {
        Some(pid) => {
            if packet.qos != QoS::AtMostOnce {
                push_u16_be(&mut variable, pid);
            }
        },
        None => {},
    }
    append_bytes(&mut variable, packet.payload.as_slice());
    assert(variable@ =~= spec_publish_body(packet@));
    framed(fixed_byte, &variable)
}

/// PUBACK, PUBREC, PUBREL or PUBCOMP: packet id, reason code, properties.
fn encode_ack(first: u8, packet_id: u16, reason_code: ReasonCode, properties: &Properties) -> (r: MqttResult<BytesMut>)
    ensures
        r matches Ok(b) && buffer_bytes(b) == spec_frame(
            first,
            spec_ack_body(AckV5View { packet_id, reason_code, properties: properties@ }),
        ),
{
    let mut body: Vec<u8> = Vec::new();
    push_u16_be(&mut body, packet_id);
    body.push(reason_code.to_u8());
    let props = properties.encode();
    append_bytes(&mut body, props.as_slice());
    assert(body@ =~= spec_ack_body(AckV5View { packet_id, reason_code, properties: properties@ }));
    framed(first, &body)
}

/// Encode a PUBACK packet.
pub fn encode_puback(packet: &PubAckPacket) -> (r: MqttResult<BytesMut>)
    ensures
        r matches Ok(b) && buffer_bytes(b) == spec_encode_v5(
            PacketV5View::PubAck(
                AckV5View {
                    packet_id: packet.packet_id,
                    reason_code: packet.reason_code,
                    properties: packet.properties@,
                },
            ),
        ),
{
    encode_ack(PacketType::PubAck.to_u8(), packet.packet_id, packet.reason_code, &packet.properties)
}

/// Encode a PUBREC packet.
pub fn encode_pubrec(packet: &PubRecPacket) -> (r: MqttResult<BytesMut>)
    ensures
        r matches Ok(b) && buffer_bytes(b) == spec_encode_v5(
            PacketV5View::PubRec(
                AckV5View {
                    packet_id: packet.packet_id,
                    reason_code: packet.reason_code,
                    properties: packet.properties@,
                },
            ),
        ),
{
    encode_ack(PacketType::PubRec.to_u8(), packet.packet_id, packet.reason_code, &packet.properties)
}

/// Encode a PUBREL packet (fixed header with flag bit 1 set).
pub fn encode_pubrel(packet: &PubRelPacket) -> (r: MqttResult<BytesMut>)
    ensures
        r matches Ok(b) && buffer_bytes(b) == spec_encode_v5(
            PacketV5View::PubRel(
                AckV5View {
                    packet_id: packet.packet_id,
                    reason_code: packet.reason_code,
                    properties: packet.properties@,
                },
            ),
        ),
{
    encode_ack(PacketType::PubRel.to_u8() + 0x02, packet.packet_id, packet.reason_code, &packet.properties)
}

/// Encode a PUBCOMP packet.
pub fn encode_pubcomp(packet: &PubCompPacket) -> (r: MqttResult<BytesMut>)
    ensures
        r matches Ok(b) && buffer_bytes(b) == spec_encode_v5(
            PacketV5View::PubComp(
                AckV5View {
                    packet_id: packet.packet_id,
                    reason_code: packet.reason_code,
                    properties: packet.properties@,
                },
            ),
        ),
{
    encode_ack(PacketType::PubComp.to_u8(), packet.packet_id, packet.reason_code, &packet.properties)
}

/// The options byte of a SUBSCRIBE entry.
fn sub_options(filter: &SubscribeFilter) -> (options: u8)
    ensures
        options == spec_sub_options(filter@),
{
    // Each option has its own bits, so adding them sets them.
    let mut options = filter.qos.to_u8();
    if filter.no_local {
        options = options + 0x04;
    }
    if filter.retain_as_published {
        options = options + 0x08;
    }
    options = options + filter.retain_handling.to_u8() * 16;
    options
}

/// Encode a SUBSCRIBE packet (fixed header with flag bit 1 set).
pub fn encode_subscribe(packet: &SubscribePacket) -> (r: MqttResult<BytesMut>)
    ensures
        r matches Ok(b) && buffer_bytes(b) == spec_encode_v5(
            PacketV5View::Subscribe(packet.packet_id, filters_v5_view(packet.filters@), packet.properties@),
        ),
{
    let ghost fs = filters_v5_view(packet.filters@);
    let ghost f = |x: SubscribeFilterV5View| spec_sub_entry(x);
    let mut payload: Vec<u8> = Vec::new();
    push_u16_be(&mut payload, packet.packet_id);
    let props = packet.properties.encode();
    append_bytes(&mut payload, props.as_slice());
    let ghost head = payload@;
    let mut i: usize = 0;
    assert(fs.take(0) =~= Seq::<SubscribeFilterV5View>::empty());
    while i < packet.filters.len()
        invariant
            i <= packet.filters.len(),
            fs == filters_v5_view(packet.filters@),
            f == (|x: SubscribeFilterV5View| spec_sub_entry(x)),
            payload@ == head + concat_map(fs.take(i as int), f),
        decreases packet.filters.len() - i,
    {
        let filter = &packet.filters[i];
        proof {
            assert(fs.take(i + 1) =~= fs.take(i as int).push(fs[i as int]));
            lemma_concat_map_push(fs.take(i as int), fs[i as int], f);
        }
        push_string(&mut payload, filter.path.as_str());
        payload.push(sub_options(filter));
        i = i + 1;
        assert(payload@ =~= head + concat_map(fs.take(i as int), f));
    }
    assert(fs.take(i as int) =~= fs);
    framed(PacketType::Subscribe.to_u8() + 0x02, &payload)
}

/// SUBACK or UNSUBACK: packet id, properties, reason codes.
fn encode_codes(first: u8, packet_id: u16, reason_codes: &Vec<ReasonCode>, properties: &Properties) -> (r: MqttResult<BytesMut>)
    ensures
        r matches Ok(b) && buffer_bytes(b) == spec_frame(
            first,
            spec_codes_body(CodesV5View { packet_id, reason_codes: reason_codes@, properties: properties@ }),
        ),
{
    let ghost cs = reason_codes@;
    let mut payload: Vec<u8> = Vec::new();
    push_u16_be(&mut payload, packet_id);
    let props = properties.encode();
    append_bytes(&mut payload, props.as_slice());
    let ghost head = payload@;
    let mut i: usize = 0;
    while i < reason_codes.len()
        invariant
            i <= reason_codes.len(),
            cs == reason_codes@,
            payload@ == head + spec_reason_bytes(cs.take(i as int)),
        decreases reason_codes.len() - i,
    {
        payload.push(reason_codes[i].to_u8());
        i = i + 1;
        assert(payload@ =~= head + spec_reason_bytes(cs.take(i as int)));
    }
    assert(cs.take(i as int) =~= cs);
    framed(first, &payload)
}

/// Encode a SUBACK packet.
pub fn encode_suback(packet: &SubAckPacket) -> (r: MqttResult<BytesMut>)
    ensures
        r matches Ok(b) && buffer_bytes(b) == spec_encode_v5(
            PacketV5View::SubAck(
                CodesV5View {
                    packet_id: packet.packet_id,
                    reason_codes: packet.reason_codes@,
                    properties: packet.properties@,
                },
            ),
        ),
{
    encode_codes(PacketType::SubAck.to_u8(), packet.packet_id, &packet.reason_codes, &packet.properties)
}

/// Encode an UNSUBSCRIBE packet (fixed header with flag bit 1 set).
pub fn encode_unsubscribe(packet: &UnsubscribePacket) -> (r: MqttResult<BytesMut>)
    ensures
        r matches Ok(b) && buffer_bytes(b) == spec_encode_v5(
            PacketV5View::Unsubscribe(packet.packet_id, strings_view(packet.filters@), packet.properties@),
        ),
{
    let ghost fs = strings_view(packet.filters@);
    let ghost f = |x: Seq<char>| spec_encode_string(x);
    let mut payload: Vec<u8> = Vec::new();
    push_u16_be(&mut payload, packet.packet_id);
    let props = packet.properties.encode();
    append_bytes(&mut payload, props.as_slice());
    let ghost head = payload@;
    let mut i: usize = 0;
    assert(fs.take(0) =~= Seq::<Seq<char>>::empty());
    while i < packet.filters.len()
        invariant
            i <= packet.filters.len(),
            fs == strings_view(packet.filters@),
            f == (|x: Seq<char>| spec_encode_string(x)),
            payload@ == head + concat_map(fs.take(i as int), f),
        decreases packet.filters.len() - i,
    {
        proof {
            assert(fs.take(i + 1) =~= fs.take(i as int).push(fs[i as int]));
            lemma_concat_map_push(fs.take(i as int), fs[i as int], f);
        }
        push_string(&mut payload, packet.filters[i].as_str());
        i = i + 1;
        assert(payload@ =~= head + concat_map(fs.take(i as int), f));
    }
    assert(fs.take(i as int) =~= fs);
    framed(PacketType::Unsubscribe.to_u8() + 0x02, &payload)
}

/// Encode an UNSUBACK packet.
pub fn encode_unsuback(packet: &UnsubAckPacket) -> (r: MqttResult<BytesMut>)
    ensures
        r matches Ok(b) && buffer_bytes(b) == spec_encode_v5(
            PacketV5View::UnsubAck(
                CodesV5View {
                    packet_id: packet.packet_id,
                    reason_codes: packet.reason_codes@,
                    properties: packet.properties@,
                },
            ),
        ),
{
    encode_codes(PacketType::UnsubAck.to_u8(), packet.packet_id, &packet.reason_codes, &packet.properties)
}

/// Encode a PINGREQ packet.
pub fn encode_pingreq() -> (r: MqttResult<BytesMut>)
    ensures
        r matches Ok(b) && buffer_bytes(b) == spec_encode_v5(PacketV5View::PingReq),
{
    framed(PacketType::PingReq.to_u8(), &Vec::new())
}

/// Encode a PINGRESP packet.
pub fn encode_pingresp() -> (r: MqttResult<BytesMut>)
    ensures
        r matches Ok(b) && buffer_bytes(b) == spec_encode_v5(PacketV5View::PingResp),
{
    framed(PacketType::PingResp.to_u8(), &Vec::new())
}

/// DISCONNECT or AUTH: reason code, properties.
fn encode_reason(first: u8, reason_code: ReasonCode, properties: &Properties) -> (r: MqttResult<BytesMut>)
    ensures
        r matches Ok(b) && buffer_bytes(b) == spec_frame(
            first,
            spec_reason_body(ReasonV5View { reason_code, properties: properties@ }),
        ),
{
    let mut body: Vec<u8> = Vec::new();
    body.push(reason_code.to_u8());
    let props = properties.encode();
    append_bytes(&mut body, props.as_slice());
    framed(first, &body)
}

/// Encode a DISCONNECT packet.
pub fn encode_disconnect(packet: &DisconnectPacket) -> (r: MqttResult<BytesMut>)
    ensures
        r matches Ok(b) && buffer_bytes(b) == spec_encode_v5(
            PacketV5View::Disconnect(ReasonV5View { reason_code: packet.reason_code, properties: packet.properties@ }),
        ),
{
    encode_reason(PacketType::Disconnect.to_u8(), packet.reason_code, &packet.properties)
}

/// Encode an AUTH packet.
pub fn encode_auth(packet: &AuthPacket) -> (r: MqttResult<BytesMut>)
    ensures
        r matches Ok(b) && buffer_bytes(b) == spec_encode_v5(
            PacketV5View::Auth(ReasonV5View { reason_code: packet.reason_code, properties: packet.properties@ }),
        ),
{
    encode_reason(PacketType::Auth.to_u8(), packet.reason_code, &packet.properties)
}

// ==================== what decoding gives ====================

/// Decoding a property list at `pos`: the properties and the position after them.
#[verifier::opaque]
pub open spec fn spec_props_at(d: Seq<u8>, pos: nat) -> Result<(PropsView, nat), Fault> {
    match spec_decode_props(d.subrange(pos as int, d.len() as int)) {
        Ok((ps, n)) => Ok((ps, pos + n)),
        Err(e) => Err(e),
    }
}

/// Decode the property list at `pos`; returns it with the position after it.
fn props_at(data: &[u8], pos: usize) -> (r: MqttResult<(Properties, usize)>)
    requires
        pos <= data.len(),
    ensures
        match r {
            Ok((ps, p)) => spec_props_at(data@, pos as nat) == Ok::<(PropsView, nat), Fault>((ps@, p as nat))
                && pos <= p <= data.len(),
            Err(e) => spec_props_at(data@, pos as nat) == Err::<(PropsView, nat), Fault>(e.fault()),
        },
{
    reveal(spec_props_at);
    let rest = &data[pos..data.len()];
    assert(rest@ == data@.subrange(pos as int, data.len() as int));
    match Properties::decode(rest) {
        Ok((ps, n)) => {
            proof {
                crate::v5::properties::lemma_decode_props_len(rest@);
            }
            Ok((ps, pos + n))
        },
        Err(e) => Err(e),
    }
}

/// The will QoS named by bits 3-4 of the connect flags (QoS 0 for the
/// unused value 3).
pub open spec fn spec_will_qos(flags: u8) -> QoS {
    match QoS::spec_from_u8((flags >> 3) & 0x03) {
        Some(q) => q,
        None => QoS::AtMostOnce,
    }
}

/// Decoding the will of a CONNECT payload at `pos`, present when flag bit 2
/// is set: properties, topic, payload; its delay is the Will Delay Interval
/// property (0 without one).
pub open spec fn spec_decode_will(d: Seq<u8>, pos: nat, flags: u8) -> Result<(Option<WillV5View>, nat), Fault> {
    if flags & 0x04 == 0 {
        Ok((None, pos))
    } else {
        match spec_props_at(d, pos) {
            Err(e) => Err(e),
            Ok((props, p0)) => match spec_string_at(d, p0) {
                Err(e) => Err(e),
                Ok((topic, p1)) => match spec_binary_at(d, p1) {
                    Err(e) => Err(e),
                    Ok((payload, p2)) => Ok(
                        (
                            Some(
                                WillV5View {
                                    topic,
                                    payload,
                                    qos: spec_will_qos(flags),
                                    retain: flags & 0x20 != 0,
                                    properties: props,
                                    delay_interval: match spec_first_u32(props, PropertyId::WillDelayInterval) {
                                        Some(v) => v,
                                        None => 0,
                                    },
                                },
                            ),
                            p2,
                        ),
                    ),
                },
            },
        }
    }
}

/// Decoding an optional string at `pos`, present when `present` holds.
pub open spec fn spec_opt_string_at(d: Seq<u8>, pos: nat, present: bool) -> Result<(Option<Seq<char>>, nat), Fault> {
    if !present {
        Ok((None, pos))
    } else {
        match spec_string_at(d, pos) {
            Err(e) => Err(e),
            Ok((s, p)) => Ok((Some(s), p)),
        }
    }
}

/// Decoding a CONNECT payload at `pos`, given the header fields.
pub open spec fn spec_decode_connect_payload(d: Seq<u8>, pos: nat, flags: u8, keep_alive: u16, properties: PropsView) -> Result<ConnectV5View, Fault> {
    match spec_string_at(d, pos) {
        Err(e) => Err(e),
        Ok((client_id, p1)) => match spec_decode_will(d, p1, flags) {
            Err(e) => Err(e),
            Ok((will, p2)) => match spec_opt_string_at(d, p2, flags & 0x80 != 0) {
                Err(e) => Err(e),
                Ok((username, p3)) => match spec_opt_string_at(d, p3, flags & 0x40 != 0) {
                    Err(e) => Err(e),
                    Ok((password, _p4)) => Ok(
                        ConnectV5View {
                            client_id,
                            clean_start: flags & 0x02 != 0,
                            keep_alive,
                            properties,
                            will,
                            username,
                            password,
                        },
                    ),
                },
            },
        },
    }
}

/// Decoding a CONNECT body: the protocol name (any string), level 5 only,
/// flags, keep alive, properties, then the payload.
pub open spec fn spec_decode_connect(d: Seq<u8>) -> Result<ConnectV5View, Fault> {
    match spec_string_at(d, 0) {
        Err(e) => Err(e),
        Ok((_name, p0)) => if p0 >= d.len() {
            Err(Fault::Invalid)
        } else if d[p0 as int] != 5 {
            Err(Fault::Version(d[p0 as int]))
        } else if p0 + 1 >= d.len() {
            Err(Fault::Invalid)
        } else if p0 + 4 > d.len() {
            Err(Fault::Invalid)
        } else {
            match spec_props_at(d, p0 + 4) {
                Err(e) => Err(e),
                Ok((props, p1)) => spec_decode_connect_payload(
                    d,
                    p1,
                    d[p0 as int + 1],
                    be16(d[p0 as int + 2], d[p0 as int + 3]) as u16,
                    props,
                ),
            }
        },
    }
}

/// Decoding a CONNACK body.
pub open spec fn spec_decode_connack(d: Seq<u8>) -> Result<(bool, ReasonCode, PropsView), Fault> {
    if d.len() < 2 {
        Err(Fault::Invalid)
    } else {
        match ReasonCode::spec_from_u8(d[1]) {
            None => Err(Fault::Invalid),
            Some(rc) => match spec_props_at(d, 2) {
                Err(e) => Err(e),
                Ok((props, _)) => Ok((d[0] & 0x01 != 0, rc, props)),
            },
        }
    }
}

/// Decoding a PUBLISH body given its fixed-header byte.
pub open spec fn spec_decode_publish(d: Seq<u8>, header: u8) -> Result<PublishV5View, Fault> {
    match QoS::spec_from_u8((header >> 1) & 0x03) {
        None => Err(Fault::Invalid),
        Some(qos) => match spec_string_at(d, 0) {
            Err(e) => Err(e),
            Ok((topic, p0)) => match spec_props_at(d, p0) {
                Err(e) => Err(e),
                Ok((properties, p)) => if qos != QoS::AtMostOnce {
                    if p + 2 > d.len() {
                        Err(Fault::Invalid)
                    } else {
                        Ok(
                            PublishV5View {
                                topic,
                                payload: d.subrange(p as int + 2, d.len() as int),
                                qos,
                                retain: header & 0x01 != 0,
                                packet_id: Some(be16(d[p as int], d[p as int + 1]) as u16),
                                properties,
                            },
                        )
                    }
                } else {
                    Ok(
                        PublishV5View {
                            topic,
                            payload: d.subrange(p as int, d.len() as int),
                            qos,
                            retain: header & 0x01 != 0,
                            packet_id: None,
                            properties,
                        },
                    )
                },
            },
        },
    }
}

/// Decoding the body of PUBACK, PUBREC, PUBREL or PUBCOMP: the reason code
/// defaults to Success when absent or unknown, the properties to none.
pub open spec fn spec_decode_ack(d: Seq<u8>) -> Result<AckV5View, Fault> {
    if d.len() < 2 {
        Err(Fault::Invalid)
    } else {
        let rc = if d.len() > 2 {
            match ReasonCode::spec_from_u8(d[2]) {
                Some(c) => c,
                None => ReasonCode::Success,
            }
        } else {
            ReasonCode::Success
        };
        if d.len() > 3 {
            match spec_props_at(d, 3) {
                Err(e) => Err(e),
                Ok((props, _)) => Ok(AckV5View { packet_id: be16(d[0], d[1]) as u16, reason_code: rc, properties: props }),
            }
        } else {
            Ok(AckV5View { packet_id: be16(d[0], d[1]) as u16, reason_code: rc, properties: Seq::empty() })
        }
    }
}

/// The SUBSCRIBE entry whose options byte is `options`, if its QoS is valid.
pub open spec fn spec_sub_filter(path: Seq<char>, options: u8) -> Option<SubscribeFilterV5View> {
    match QoS::spec_from_u8(options & 0x03) {
        None => None,
        Some(qos) => Some(
            SubscribeFilterV5View {
                path,
                qos,
                no_local: options & 0x04 != 0,
                retain_as_published: options & 0x08 != 0,
                retain_handling: match RetainHandling::spec_from_u8((options >> 4) & 0x03) {
                    Some(rh) => rh,
                    None => RetainHandling::Send,
                },
            },
        ),
    }
}

/// Decoding SUBSCRIBE entries from `pos` to the end, after those in `acc`.
pub open spec fn spec_decode_sub_filters(d: Seq<u8>, pos: nat, acc: Seq<SubscribeFilterV5View>) -> Result<Seq<SubscribeFilterV5View>, Fault>
    decreases d.len() - pos,
{
    if pos >= d.len() {
        Ok(acc)
    } else {
        match spec_string_at(d, pos) {
            Err(e) => Err(e),
            Ok((path, p1)) => if p1 >= d.len() {
                Err(Fault::Invalid)
            } else {
                match spec_sub_filter(path, d[p1 as int]) {
                    None => Err(Fault::Invalid),
                    Some(f) => {
                        proof {
                            lemma_string_at_advances(d, pos);
                        }
                        spec_decode_sub_filters(d, p1 + 1, acc.push(f))
                    },
                }
            },
        }
    }
}

/// Decoding UNSUBSCRIBE filters from `pos` to the end, after those in `acc`.
pub open spec fn spec_decode_unsub_filters(d: Seq<u8>, pos: nat, acc: Seq<Seq<char>>) -> Result<Seq<Seq<char>>, Fault>
    decreases d.len() - pos,
{
    if pos >= d.len() {
        Ok(acc)
    } else {
        match spec_string_at(d, pos) {
            Err(e) => Err(e),
            Ok((path, p1)) => {
                proof {
                    lemma_string_at_advances(d, pos);
                }
                spec_decode_unsub_filters(d, p1, acc.push(path))
            },
        }
    }
}

/// The reason codes in `d`, bytes that name none left out.
pub open spec fn spec_reason_codes(d: Seq<u8>) -> Seq<ReasonCode>
    decreases d.len(),
{
    if d.len() == 0 {
        Seq::empty()
    } else {
        let prev = spec_reason_codes(d.drop_last());
        match ReasonCode::spec_from_u8(d.last()) {
            Some(c) => prev.push(c),
            None => prev,
        }
    }
}

/// Decoding the body of SUBACK or UNSUBACK.
pub open spec fn spec_decode_codes(d: Seq<u8>) -> Result<CodesV5View, Fault> {
    if d.len() < 2 {
        Err(Fault::Invalid)
    } else {
        match spec_props_at(d, 2) {
            Err(e) => Err(e),
            Ok((props, p)) => Ok(
                CodesV5View {
                    packet_id: be16(d[0], d[1]) as u16,
                    reason_codes: spec_reason_codes(d.subrange(p as int, d.len() as int)),
                    properties: props,
                },
            ),
        }
    }
}

/// Decoding the body of DISCONNECT: the reason code defaults to Success when
/// absent or unknown, the properties to none.
pub open spec fn spec_decode_disconnect(d: Seq<u8>) -> Result<ReasonV5View, Fault> {
    let rc = if d.len() == 0 {
        ReasonCode::Success
    } else {
        match ReasonCode::spec_from_u8(d[0]) {
            Some(c) => c,
            None => ReasonCode::Success,
        }
    };
    if d.len() > 1 {
        match spec_props_at(d, 1) {
            Err(e) => Err(e),
            Ok((props, _)) => Ok(ReasonV5View { reason_code: rc, properties: props }),
        }
    } else {
        Ok(ReasonV5View { reason_code: rc, properties: Seq::empty() })
    }
}

/// Decoding the body of AUTH: a known reason code is required.
pub open spec fn spec_decode_auth(d: Seq<u8>) -> Result<ReasonV5View, Fault> {
    if d.len() == 0 {
        Err(Fault::Invalid)
    } else {
        match ReasonCode::spec_from_u8(d[0]) {
            None => Err(Fault::Invalid),
            Some(rc) => match spec_props_at(d, 1) {
                Err(e) => Err(e),
                Ok((props, _)) => Ok(ReasonV5View { reason_code: rc, properties: props }),
            },
        }
    }
}

/// Decoding a SUBSCRIBE body: packet id, properties, entries.
pub open spec fn spec_decode_subscribe(d: Seq<u8>) -> Result<(u16, Seq<SubscribeFilterV5View>, PropsView), Fault> {
    if d.len() < 2 {
        Err(Fault::Invalid)
    } else {
        match spec_props_at(d, 2) {
            Err(e) => Err(e),
            Ok((props, p)) => match spec_decode_sub_filters(d, p, Seq::empty()) {
                Ok(fs) => Ok((be16(d[0], d[1]) as u16, fs, props)),
                Err(e) => Err(e),
            },
        }
    }
}

/// Decoding an UNSUBSCRIBE body: packet id, properties, filters.
pub open spec fn spec_decode_unsubscribe(d: Seq<u8>) -> Result<(u16, Seq<Seq<char>>, PropsView), Fault> {
    if d.len() < 2 {
        Err(Fault::Invalid)
    } else {
        match spec_props_at(d, 2) {
            Err(e) => Err(e),
            Ok((props, p)) => match spec_decode_unsub_filters(d, p, Seq::empty()) {
                Ok(fs) => Ok((be16(d[0], d[1]) as u16, fs, props)),
                Err(e) => Err(e),
            },
        }
    }
}

/// Decoding the body of a packet of type `t` with fixed-header byte `header`.
#[verifier::opaque]
pub open spec fn spec_decode_v5_body(t: PacketType, header: u8, d: Seq<u8>) -> Result<PacketV5View, Fault> {
    match t {
        PacketType::Connect => match spec_decode_connect(d) {
            Ok(c) => Ok(PacketV5View::Connect(c)),
            Err(e) => Err(e),
        },
        PacketType::ConnAck => match spec_decode_connack(d) {
            Ok((sp, rc, props)) => Ok(PacketV5View::ConnAck(sp, rc, props)),
            Err(e) => Err(e),
        },
        PacketType::Publish => match spec_decode_publish(d, header) {
            Ok(p) => Ok(PacketV5View::Publish(p)),
            Err(e) => Err(e),
        },
        PacketType::PubAck => match spec_decode_ack(d) {
            Ok(a) => Ok(PacketV5View::PubAck(a)),
            Err(e) => Err(e),
        },
        PacketType::PubRec => match spec_decode_ack(d) {
            Ok(a) => Ok(PacketV5View::PubRec(a)),
            Err(e) => Err(e),
        },
        PacketType::PubRel => match spec_decode_ack(d) {
            Ok(a) => Ok(PacketV5View::PubRel(a)),
            Err(e) => Err(e),
        },
        PacketType::PubComp => match spec_decode_ack(d) {
            Ok(a) => Ok(PacketV5View::PubComp(a)),
            Err(e) => Err(e),
        },
        PacketType::Subscribe => match spec_decode_subscribe(d) {
            Ok((id, fs, props)) => Ok(PacketV5View::Subscribe(id, fs, props)),
            Err(e) => Err(e),
        },
        PacketType::SubAck => match spec_decode_codes(d) {
            Ok(c) => Ok(PacketV5View::SubAck(c)),
            Err(e) => Err(e),
        },
        PacketType::Unsubscribe => match spec_decode_unsubscribe(d) {
            Ok((id, fs, props)) => Ok(PacketV5View::Unsubscribe(id, fs, props)),
            Err(e) => Err(e),
        },
        PacketType::UnsubAck => match spec_decode_codes(d) {
            Ok(c) => Ok(PacketV5View::UnsubAck(c)),
            Err(e) => Err(e),
        },
        PacketType::PingReq => Ok(PacketV5View::PingReq),
        PacketType::PingResp => Ok(PacketV5View::PingResp),
        PacketType::Disconnect => match spec_decode_disconnect(d) {
            Ok(r) => Ok(PacketV5View::Disconnect(r)),
            Err(e) => Err(e),
        },
        PacketType::Auth => match spec_decode_auth(d) {
            Ok(r) => Ok(PacketV5View::Auth(r)),
            Err(e) => Err(e),
        },
    }
}

/// Decoding a packet from the front of `buf`: `Ok(None)` while more bytes are
/// needed, else the packet and the number of bytes it takes.
pub open spec fn spec_decode_v5(buf: Seq<u8>) -> Result<Option<(PacketV5View, nat)>, Fault> {
    if buf.len() == 0 {
        Ok(None)
    } else {
        match PacketType::spec_from_u8(buf[0]) {
            None => Err(Fault::Invalid),
            Some(t) => if buf.len() < 2 {
                Ok(None)
            } else {
                match spec_decode_varint(buf.subrange(1, buf.len() as int)) {
                    None => Err(Fault::RemainingLength),
                    Some((rem, lb)) => {
                        let total = 1 + lb + rem;
                        if total > MAX_PACKET_SIZE {
                            Err(Fault::TooLarge(total as usize))
                        } else if buf.len() < total {
                            Ok(None)
                        } else {
                            match spec_decode_v5_body(t, buf[0], buf.subrange(1 + lb as int, total as int)) {
                                Ok(p) => Ok(Some((p, total))),
                                Err(e) => Err(e),
                            }
                        }
                    },
                }
            },
        }
    }
}

// ==================== decoders ====================

/// Decode an optional string at `pos`, present when `present` holds.
fn opt_string_at(data: &[u8], pos: usize, present: bool) -> (r: MqttResult<(Option<String>, usize)>)
    requires
        pos <= data.len(),
    ensures
        match r {
            Ok((s, p)) => spec_opt_string_at(data@, pos as nat, present) == Ok::<(Option<Seq<char>>, nat), Fault>(
                (opt_string_view(s), p as nat),
            ) && p <= data.len(),
            Err(e) => spec_opt_string_at(data@, pos as nat, present) == Err::<(Option<Seq<char>>, nat), Fault>(e.fault()),
        },
{
    if !present {
        return Ok((None, pos));
    }
    match string_at(data, pos) {
        Ok((s, p)) => Ok((Some(s), p)),
        Err(e) => Err(e),
    }
}

/// Decode the will of a CONNECT payload at `pos`, present when flag bit 2 is set.
fn decode_will(data: &[u8], pos: usize, flags: u8) -> (r: MqttResult<(Option<Will>, usize)>)
    requires
        pos <= data.len(),
    ensures
        match r {
            Ok((w, p)) => spec_decode_will(data@, pos as nat, flags) == Ok::<(Option<WillV5View>, nat), Fault>(
                (opt_will_v5_view(w), p as nat),
            ) && p <= data.len(),
            Err(e) => spec_decode_will(data@, pos as nat, flags) == Err::<(Option<WillV5View>, nat), Fault>(e.fault()),
        },
{
    if flags & 0x04 == 0 {
        return Ok((None, pos));
    }
    let qos = match QoS::from_u8((flags >> 3) & 0x03) {
        Some(q) => q,
        None => QoS::AtMostOnce,
    };
    let retain = (flags & 0x20) != 0;
    let (properties, p0) = match props_at(data, pos) {
        Ok(x) => x,
        Err(e) => return Err(e),
    };
    let delay_interval = match properties.will_delay_interval() {
        Some(v) => v,
        None => 0,
    };
    let (topic, p1) = match string_at(data, p0) {
        Ok(x) => x,
        Err(e) => return Err(e),
    };
    let (payload, p2) = match binary_at(data, p1) {
        Ok(x) => x,
        Err(e) => return Err(e),
    };
    Ok((Some(Will { topic, payload, qos, retain, properties, delay_interval }), p2))
}

/// Decode a CONNECT body.
pub fn decode_connect(data: &[u8], _fixed_header: u8) -> (r: MqttResult<ConnectPacket>)
    ensures
        match r {
            Ok(c) => spec_decode_connect(data@) == Ok::<ConnectV5View, Fault>(c@),
            Err(e) => spec_decode_connect(data@) == Err::<ConnectV5View, Fault>(e.fault()),
        },
{
    // Protocol name
    let (_protocol_name, mut pos) = match string_at(data, 0) {
        Ok(x) => x,
        Err(e) => return Err(e),
    };

    // Protocol level: must be 5 for MQTT 5.0
    if pos >= data.len() {
        return Err(invalid("Missing protocol level"));
    }
    let protocol_level = data[pos];
    pos = pos + 1;
    if protocol_level != 5 {
        return Err(MqttError::UnsupportedVersion(protocol_level));
    }

    // Connect flags
    if pos >= data.len() {
        return Err(invalid("Missing connect flags"));
    }
    let connect_flags = data[pos];
    pos = pos + 1;

    let clean_start = (connect_flags & 0x02) != 0;
    let password_flag = (connect_flags & 0x40) != 0;
    let username_flag = (connect_flags & 0x80) != 0;

    // Keep alive
    if data.len() - pos < 2 {
        return Err(invalid("Missing keep alive"));
    }
    let keep_alive = read_u16_be(data[pos], data[pos + 1]);
    assert(keep_alive == be16(data@[pos as int], data@[pos + 1]) as u16);
    pos = pos + 2;

    // Properties
    let (properties, p0) = match props_at(data, pos) {
        Ok(x) => x,
        Err(e) => return Err(e),
    };

    // Client ID
    let (client_id, p1) = match string_at(data, p0) {
        Ok(x) => x,
        Err(e) => return Err(e),
    };

    // Will
    let (will, p2) = match decode_will(data, p1, connect_flags) {
        Ok(x) => x,
        Err(e) => return Err(e),
    };

    // Username
    let (username, p3) = match opt_string_at(data, p2, username_flag) {
        Ok(x) => x,
        Err(e) => return Err(e),
    };

    // Password
    let (password, _p4) = match opt_string_at(data, p3, password_flag) {
        Ok(x) => x,
        Err(e) => return Err(e),
    };

    Ok(ConnectPacket { client_id, clean_start, keep_alive, properties, will, username, password })
}

/// Decode a CONNACK body.
pub fn decode_connack(data: &[u8], _fixed_header: u8) -> (r: MqttResult<ConnAckPacket>)
    ensures
        match r {
            Ok(c) => spec_decode_connack(data@) == Ok::<(bool, ReasonCode, PropsView), Fault>(
                (c.session_present, c.reason_code, c.properties@),
            ),
            Err(e) => spec_decode_connack(data@) == Err::<(bool, ReasonCode, PropsView), Fault>(e.fault()),
        },
{
    if data.len() == 0 {
        return Err(invalid("CONNACK too short"));
    }
    let session_present = (data[0] & 0x01) != 0;
    if data.len() < 2 {
        return Err(invalid("CONNACK missing reason code"));
    }
    let reason_code = match ReasonCode::from_u8(data[1]) {
        Some(c) => c,
        None => return Err(invalid("Unknown reason code")),
    };
    let (properties, _) = match props_at(data, 2) {
        Ok(x) => x,
        Err(e) => return Err(e),
    };
    Ok(ConnAckPacket { session_present, reason_code, properties })
}

/// Decode a PUBLISH body given its fixed-header byte.
pub fn decode_publish(data: &[u8], fixed_header: u8) -> (r: MqttResult<PublishPacket>)
    ensures
        match r {
            Ok(p) => spec_decode_publish(data@, fixed_header) == Ok::<PublishV5View, Fault>(p@),
            Err(e) => spec_decode_publish(data@, fixed_header) == Err::<PublishV5View, Fault>(e.fault()),
        },
{
    let qos = match QoS::from_u8((fixed_header >> 1) & 0x03) {
        Some(q) => q,
        None => return Err(invalid("Invalid QoS")),
    };
    let retain = (fixed_header & 0x01) != 0;

    let (topic, p0) = match string_at(data, 0) {
        Ok(x) => x,
        Err(e) => return Err(e),
    };

    // Properties
    let (properties, mut pos) = match props_at(data, p0) {
        Ok(x) => x,
        Err(e) => return Err(e),
    };

    // Packet identifier for QoS > 0
    let packet_id = if qos != QoS::AtMostOnce {
        if data.len() - pos < 2 {
            return Err(invalid("Missing packet ID in PUBLISH"));
        }
        let pid = read_u16_be(data[pos], data[pos + 1]);
        assert(pid == be16(data@[pos as int], data@[pos + 1]) as u16);
        pos = pos + 2;
        Some(pid)
    } else {
        None
    };

    let mut payload: Vec<u8> = Vec::new();
    append_bytes(&mut payload, &data[pos..data.len()]);
    assert(payload@ =~= data@.subrange(pos as int, data.len() as int));

    Ok(PublishPacket { topic, payload, qos, retain, packet_id, properties })
}

/// Decode the fields of PUBACK, PUBREC, PUBREL or PUBCOMP.
fn decode_ack(data: &[u8]) -> (r: MqttResult<(u16, ReasonCode, Properties)>)
    ensures
        match r {
            Ok((id, rc, props)) => spec_decode_ack(data@) == Ok::<AckV5View, Fault>(
                AckV5View { packet_id: id, reason_code: rc, properties: props@ },
            ),
            Err(e) => spec_decode_ack(data@) == Err::<AckV5View, Fault>(e.fault()),
        },
{
    if data.len() < 2 {
        return Err(invalid("Acknowledgement too short"));
    }
    let packet_id = read_u16_be(data[0], data[1]);
    assert(packet_id == be16(data@[0], data@[1]) as u16);
    let reason_code = if data.len() > 2 {
        match ReasonCode::from_u8(data[2]) {
            Some(c) => c,
            None => ReasonCode::Success,
        }
    } else {
        ReasonCode::Success
    };
    let properties = if data.len() > 3 {
        match props_at(data, 3) {
            Ok((p, _)) => p,
            Err(e) => return Err(e),
        }
    } else {
        Properties::new()
    };
    Ok((packet_id, reason_code, properties))
}

/// Decode a PUBACK body.
pub fn decode_puback(data: &[u8]) -> (r: MqttResult<PubAckPacket>)
    ensures
        match r {
            Ok(p) => spec_decode_ack(data@) == Ok::<AckV5View, Fault>(
                AckV5View { packet_id: p.packet_id, reason_code: p.reason_code, properties: p.properties@ },
            ),
            Err(e) => spec_decode_ack(data@) == Err::<AckV5View, Fault>(e.fault()),
        },
{
    match decode_ack(data) {
        Ok((packet_id, reason_code, properties)) => Ok(PubAckPacket { packet_id, reason_code, properties }),
        Err(e) => Err(e),
    }
}

/// Decode a PUBREC body.
pub fn decode_pubrec(data: &[u8]) -> (r: MqttResult<PubRecPacket>)
    ensures
        match r {
            Ok(p) => spec_decode_ack(data@) == Ok::<AckV5View, Fault>(
                AckV5View { packet_id: p.packet_id, reason_code: p.reason_code, properties: p.properties@ },
            ),
            Err(e) => spec_decode_ack(data@) == Err::<AckV5View, Fault>(e.fault()),
        },
{
    match decode_ack(data) {
        Ok((packet_id, reason_code, properties)) => Ok(PubRecPacket { packet_id, reason_code, properties }),
        Err(e) => Err(e),
    }
}

/// Decode a PUBREL body.
pub fn decode_pubrel(data: &[u8]) -> (r: MqttResult<PubRelPacket>)
    ensures
        match r {
            Ok(p) => spec_decode_ack(data@) == Ok::<AckV5View, Fault>(
                AckV5View { packet_id: p.packet_id, reason_code: p.reason_code, properties: p.properties@ },
            ),
            Err(e) => spec_decode_ack(data@) == Err::<AckV5View, Fault>(e.fault()),
        },
{
    match decode_ack(data) {
        Ok((packet_id, reason_code, properties)) => Ok(PubRelPacket { packet_id, reason_code, properties }),
        Err(e) => Err(e),
    }
}

/// Decode a PUBCOMP body.
pub fn decode_pubcomp(data: &[u8]) -> (r: MqttResult<PubCompPacket>)
    ensures
        match r {
            Ok(p) => spec_decode_ack(data@) == Ok::<AckV5View, Fault>(
                AckV5View { packet_id: p.packet_id, reason_code: p.reason_code, properties: p.properties@ },
            ),
            Err(e) => spec_decode_ack(data@) == Err::<AckV5View, Fault>(e.fault()),
        },
{
    match decode_ack(data) {
        Ok((packet_id, reason_code, properties)) => Ok(PubCompPacket { packet_id, reason_code, properties }),
        Err(e) => Err(e),
    }
}

/// Decode a SUBSCRIBE body.
pub fn decode_subscribe(data: &[u8]) -> (r: MqttResult<SubscribePacket>)
    ensures
        match r {
            Ok(p) => spec_decode_subscribe(data@) == Ok::<(u16, Seq<SubscribeFilterV5View>, PropsView), Fault>(
                (p.packet_id, filters_v5_view(p.filters@), p.properties@),
            ),
            Err(e) => spec_decode_subscribe(data@) == Err::<(u16, Seq<SubscribeFilterV5View>, PropsView), Fault>(
                e.fault(),
            ),
        },
{
    if data.len() < 2 {
        return Err(invalid("SUBSCRIBE too short"));
    }
    let packet_id = read_u16_be(data[0], data[1]);
    assert(packet_id == be16(data@[0], data@[1]) as u16);

    let (properties, p0) = match props_at(data, 2) {
        Ok(x) => x,
        Err(e) => return Err(e),
    };
    let mut pos = p0;
    let mut filters: Vec<SubscribeFilter> = Vec::new();
    assert(filters_v5_view(filters@) =~= Seq::<SubscribeFilterV5View>::empty());

    while pos < data.len()
        invariant
            p0 <= pos <= data.len(),
            data.len() >= 2,
            packet_id == be16(data@[0], data@[1]) as u16,
            spec_props_at(data@, 2) == Ok::<(PropsView, nat), Fault>((properties@, p0 as nat)),
            spec_decode_sub_filters(data@, p0 as nat, Seq::empty()) == spec_decode_sub_filters(
                data@,
                pos as nat,
                filters_v5_view(filters@),
            ),
        decreases data.len() - pos,
    {
        let (path, p1) = match string_at(data, pos) {
            Ok(x) => x,
            Err(e) => return Err(e),
        };
        if p1 >= data.len() {
            return Err(invalid("Missing subscription options"));
        }
        let options = data[p1];

        let qos = match QoS::from_u8(options & 0x03) {
            Some(q) => q,
            None => return Err(invalid("Invalid QoS in SUBSCRIBE")),
        };
        let no_local = (options & 0x04) != 0;
        let retain_as_published = (options & 0x08) != 0;
        let retain_handling = match RetainHandling::from_u8((options >> 4) & 0x03) {
            Some(rh) => rh,
            None => RetainHandling::Send,
        };

        let ghost before = filters_v5_view(filters@);
        let f = SubscribeFilter { path, qos, no_local, retain_as_published, retain_handling };
        filters.push(f);
        assert(filters_v5_view(filters@) =~= before.push(f@));
        pos = p1 + 1;
    }

    Ok(SubscribePacket { packet_id, filters, properties })
}

/// Decode the fields of SUBACK or UNSUBACK; bytes that name no reason code are skipped.
fn decode_codes(data: &[u8]) -> (r: MqttResult<(u16, Vec<ReasonCode>, Properties)>)
    ensures
        match r {
            Ok((id, codes, props)) => spec_decode_codes(data@) == Ok::<CodesV5View, Fault>(
                CodesV5View { packet_id: id, reason_codes: codes@, properties: props@ },
            ),
            Err(e) => spec_decode_codes(data@) == Err::<CodesV5View, Fault>(e.fault()),
        },
{
    if data.len() < 2 {
        return Err(invalid("Acknowledgement too short"));
    }
    let packet_id = read_u16_be(data[0], data[1]);
    assert(packet_id == be16(data@[0], data@[1]) as u16);
    let (properties, p0) = match props_at(data, 2) {
        Ok(x) => x,
        Err(e) => return Err(e),
    };
    let ghost rest = data@.subrange(p0 as int, data@.len() as int);
    let mut reason_codes: Vec<ReasonCode> = Vec::new();
    let mut i: usize = p0;
    assert(rest.take(0) =~= Seq::<u8>::empty());
    while i < data.len()
        invariant
            p0 <= i <= data.len(),
            rest == data@.subrange(p0 as int, data@.len() as int),
            reason_codes@ == spec_reason_codes(rest.take(i - p0)),
        decreases data.len() - i,
    {
        proof {
            assert(rest.take(i - p0 + 1).drop_last() =~= rest.take(i - p0));
            assert(rest.take(i - p0 + 1).last() == data@[i as int]);
        }
        match ReasonCode::from_u8(data[i]) {
            Some(c) => reason_codes.push(c),
            None => {},
        }
        i = i + 1;
    }
    assert(rest.take(i - p0) =~= rest);
    Ok((packet_id, reason_codes, properties))
}

/// Decode a SUBACK body.
pub fn decode_suback(data: &[u8]) -> (r: MqttResult<SubAckPacket>)
    ensures
        match r {
            Ok(p) => spec_decode_codes(data@) == Ok::<CodesV5View, Fault>(
                CodesV5View { packet_id: p.packet_id, reason_codes: p.reason_codes@, properties: p.properties@ },
            ),
            Err(e) => spec_decode_codes(data@) == Err::<CodesV5View, Fault>(e.fault()),
        },
{
    match decode_codes(data) {
        Ok((packet_id, reason_codes, properties)) => Ok(SubAckPacket { packet_id, reason_codes, properties }),
        Err(e) => Err(e),
    }
}

/// Decode an UNSUBACK body.
pub fn decode_unsuback(data: &[u8]) -> (r: MqttResult<UnsubAckPacket>)
    ensures
        match r {
            Ok(p) => spec_decode_codes(data@) == Ok::<CodesV5View, Fault>(
                CodesV5View { packet_id: p.packet_id, reason_codes: p.reason_codes@, properties: p.properties@ },
            ),
            Err(e) => spec_decode_codes(data@) == Err::<CodesV5View, Fault>(e.fault()),
        },
{
    match decode_codes(data) {
        Ok((packet_id, reason_codes, properties)) => Ok(UnsubAckPacket { packet_id, reason_codes, properties }),
        Err(e) => Err(e),
    }
}

/// Decode an UNSUBSCRIBE body.
pub fn decode_unsubscribe(data: &[u8]) -> (r: MqttResult<UnsubscribePacket>)
    ensures
        match r {
            Ok(p) => spec_decode_unsubscribe(data@) == Ok::<(u16, Seq<Seq<char>>, PropsView), Fault>(
                (p.packet_id, strings_view(p.filters@), p.properties@),
            ),
            Err(e) => spec_decode_unsubscribe(data@) == Err::<(u16, Seq<Seq<char>>, PropsView), Fault>(e.fault()),
        },
{
    if data.len() < 2 {
        return Err(invalid("UNSUBSCRIBE too short"));
    }
    let packet_id = read_u16_be(data[0], data[1]);
    assert(packet_id == be16(data@[0], data@[1]) as u16);

    let (properties, p0) = match props_at(data, 2) {
        Ok(x) => x,
        Err(e) => return Err(e),
    };
    let mut pos = p0;
    let mut filters: Vec<String> = Vec::new();
    assert(strings_view(filters@) =~= Seq::<Seq<char>>::empty());

    while pos < data.len()
        invariant
            p0 <= pos <= data.len(),
            data.len() >= 2,
            packet_id == be16(data@[0], data@[1]) as u16,
            spec_props_at(data@, 2) == Ok::<(PropsView, nat), Fault>((properties@, p0 as nat)),
            spec_decode_unsub_filters(data@, p0 as nat, Seq::empty()) == spec_decode_unsub_filters(
                data@,
                pos as nat,
                strings_view(filters@),
            ),
        decreases data.len() - pos,
    {
        let (topic, p1) = match string_at(data, pos) {
            Ok(x) => x,
            Err(e) => return Err(e),
        };
        let ghost before = strings_view(filters@);
        let ghost tv = topic@;
        filters.push(topic);
        assert(strings_view(filters@) =~= before.push(tv));
        pos = p1;
    }

    Ok(UnsubscribePacket { packet_id, filters, properties })
}

/// Decode a DISCONNECT body.
pub fn decode_disconnect(data: &[u8]) -> (r: MqttResult<DisconnectPacket>)
    ensures
        match r {
            Ok(p) => spec_decode_disconnect(data@) == Ok::<ReasonV5View, Fault>(
                ReasonV5View { reason_code: p.reason_code, properties: p.properties@ },
            ),
            Err(e) => spec_decode_disconnect(data@) == Err::<ReasonV5View, Fault>(e.fault()),
        },
{
    let reason_code = if data.len() == 0 {
        ReasonCode::normal_disconnection()
    } else {
        match ReasonCode::from_u8(data[0]) {
            Some(c) => c,
            None => ReasonCode::Success,
        }
    };
    let properties = if data.len() > 1 {
        match props_at(data, 1) {
            Ok((p, _)) => p,
            Err(e) => return Err(e),
        }
    } else {
        Properties::new()
    };
    Ok(DisconnectPacket { reason_code, properties })
}

/// Decode an AUTH body.
pub fn decode_auth(data: &[u8]) -> (r: MqttResult<AuthPacket>)
    ensures
        match r {
            Ok(p) => spec_decode_auth(data@) == Ok::<ReasonV5View, Fault>(
                ReasonV5View { reason_code: p.reason_code, properties: p.properties@ },
            ),
            Err(e) => spec_decode_auth(data@) == Err::<ReasonV5View, Fault>(e.fault()),
        },
{
    if data.len() == 0 {
        return Err(invalid("AUTH too short"));
    }
    let reason_code = match ReasonCode::from_u8(data[0]) {
        Some(c) => c,
        None => return Err(invalid("Unknown AUTH reason code")),
    };
    let (properties, _) = match props_at(data, 1) {
        Ok(x) => x,
        Err(e) => return Err(e),
    };
    Ok(AuthPacket { reason_code, properties })
}

/// Decode the body of a packet of type `t` with fixed-header byte `header`.
fn decode_body(t: PacketType, header: u8, data: &[u8]) -> (r: MqttResult<MqttPacketV5>)
    ensures
        match r {
            Ok(p) => spec_decode_v5_body(t, header, data@) == Ok::<PacketV5View, Fault>(p@),
            Err(e) => spec_decode_v5_body(t, header, data@) == Err::<PacketV5View, Fault>(e.fault()),
        },
{
    reveal(spec_decode_v5_body);
    match t {
        PacketType::Connect => match decode_connect(data, header) {
            Ok(p) => Ok(MqttPacketV5::Connect(p)),
            Err(e) => Err(e),
        },
        PacketType::ConnAck => match decode_connack(data, header) {
            Ok(p) => Ok(MqttPacketV5::ConnAck(p)),
            Err(e) => Err(e),
        },
        PacketType::Publish => match decode_publish(data, header) {
            Ok(p) => Ok(MqttPacketV5::Publish(p)),
            Err(e) => Err(e),
        },
        PacketType::PubAck => match decode_puback(data) {
            Ok(p) => Ok(MqttPacketV5::PubAck(p)),
            Err(e) => Err(e),
        },
        PacketType::PubRec => match decode_pubrec(data) {
            Ok(p) => Ok(MqttPacketV5::PubRec(p)),
            Err(e) => Err(e),
        },
        PacketType::PubRel => match decode_pubrel(data) {
            Ok(p) => Ok(MqttPacketV5::PubRel(p)),
            Err(e) => Err(e),
        },
        PacketType::PubComp => match decode_pubcomp(data) {
            Ok(p) => Ok(MqttPacketV5::PubComp(p)),
            Err(e) => Err(e),
        },
        PacketType::Subscribe => match decode_subscribe(data) {
            Ok(p) => Ok(MqttPacketV5::Subscribe(p)),
            Err(e) => Err(e),
        },
        PacketType::SubAck => match decode_suback(data) {
            Ok(p) => Ok(MqttPacketV5::SubAck(p)),
            Err(e) => Err(e),
        },
        PacketType::Unsubscribe => match decode_unsubscribe(data) {
            Ok(p) => Ok(MqttPacketV5::Unsubscribe(p)),
            Err(e) => Err(e),
        },
        PacketType::UnsubAck => match decode_unsuback(data) {
            Ok(p) => Ok(MqttPacketV5::UnsubAck(p)),
            Err(e) => Err(e),
        },
        PacketType::PingReq => Ok(MqttPacketV5::PingReq(PingReqPacket)),
        PacketType::PingResp => Ok(MqttPacketV5::PingResp(PingRespPacket)),
        PacketType::Disconnect => match decode_disconnect(data) {
            Ok(p) => Ok(MqttPacketV5::Disconnect(p)),
            Err(e) => Err(e),
        },
        PacketType::Auth => match decode_auth(data) {
            Ok(p) => Ok(MqttPacketV5::Auth(p)),
            Err(e) => Err(e),
        },
    }
}

/// Decode a MQTT 5.0 packet from the front of a byte buffer: `Ok(None)`
/// while more bytes are needed, else the packet and the bytes it takes.
pub fn decode_packet(src: &BytesMut) -> (r: MqttResult<Option<(MqttPacketV5, usize)>>)
    ensures
        match r {
            Ok(Some((p, n))) => spec_decode_v5(buffer_bytes(*src)) == Ok::<Option<(PacketV5View, nat)>, Fault>(
                Some((p@, n as nat)),
            ),
            Ok(None) => spec_decode_v5(buffer_bytes(*src)) == Ok::<Option<(PacketV5View, nat)>, Fault>(None),
            Err(e) => spec_decode_v5(buffer_bytes(*src)) == Err::<Option<(PacketV5View, nat)>, Fault>(e.fault()),
        },
{
    let src = buffer_as_slice(src);
    if src.len() == 0 {
        return Ok(None);
    }

    let fixed_header = src[0];
    let packet_type = match PacketType::from_u8(fixed_header) {
        Some(t) => t,
        None => return Err(invalid("Unknown packet type")),
    };

    if src.len() < 2 {
        return Ok(None);
    }

    let (remaining_len, len_bytes) = match decode_remaining_length(&src[1..src.len()]) {
        Ok(x) => x,
        Err(e) => return Err(e),
    };
    proof {
        crate::common::lemma_varint_decoded_bounds(src@.subrange(1, src@.len() as int));
    }
    let total_len = 1 + len_bytes + remaining_len;

    if total_len > MAX_PACKET_SIZE {
        return Err(MqttError::PacketTooLarge(total_len));
    }

    if src.len() < total_len {
        return Ok(None);
    }

    let packet_data = &src[1 + len_bytes..total_len];
    match decode_body(packet_type, fixed_header, packet_data) {
        Ok(packet) => Ok(Some((packet, total_len))),
        Err(e) => Err(e),
    }
}

// ==================== decoding what was encoded ====================

/// A packet the encoder can write so that decoding gives it back: its
/// strings fit their 16-bit length prefixes, binary data fits its 16-bit
/// length, its property lists are well formed, a will's delay is the one
/// its properties give, and a PUBLISH has a packet identifier exactly when
/// its QoS is above 0.
pub open spec fn v5_well_formed(p: PacketV5View) -> bool {
    match p {
        PacketV5View::Connect(c) => {
            &&& fits_u16_string(c.client_id)
            &&& props_well_formed(c.properties)
            &&& (c.will matches Some(w) ==> {
                &&& fits_u16_string(w.topic)
                &&& w.payload.len() < 65536
                &&& props_well_formed(w.properties)
                &&& w.delay_interval == (match spec_first_u32(w.properties, PropertyId::WillDelayInterval) {
                    Some(v) => v,
                    None => 0,
                })
            })
            &&& (c.username matches Some(u) ==> fits_u16_string(u))
            &&& (c.password matches Some(pw) ==> fits_u16_string(pw))
        },
        PacketV5View::ConnAck(_, _, props) => props_well_formed(props),
        PacketV5View::Publish(x) => {
            &&& fits_u16_string(x.topic)
            &&& props_well_formed(x.properties)
            &&& ((x.qos == QoS::AtMostOnce) <==> (x.packet_id is None))
        },
        PacketV5View::PubAck(a) => props_well_formed(a.properties),
        PacketV5View::PubRec(a) => props_well_formed(a.properties),
        PacketV5View::PubRel(a) => props_well_formed(a.properties),
        PacketV5View::PubComp(a) => props_well_formed(a.properties),
        PacketV5View::Subscribe(_, fs, props) => props_well_formed(props) && forall|i: int|
            0 <= i < fs.len() ==> fits_u16_string(#[trigger] fs[i].path),
        PacketV5View::SubAck(c) => props_well_formed(c.properties),
        PacketV5View::Unsubscribe(_, fs, props) => props_well_formed(props) && forall|i: int|
            0 <= i < fs.len() ==> fits_u16_string(#[trigger] fs[i]),
        PacketV5View::UnsubAck(c) => props_well_formed(c.properties),
        PacketV5View::Disconnect(r) => props_well_formed(r.properties),
        PacketV5View::Auth(r) => props_well_formed(r.properties),
        _ => true,
    }
}

proof fn lemma_props_at_concat(pre: Seq<u8>, ps: PropsView, post: Seq<u8>)
    requires
        props_well_formed(ps),
    ensures
        spec_props_at(pre + spec_encode_props(ps) + post, pre.len()) == Ok::<(PropsView, nat), Fault>(
            (ps, pre.len() + spec_encode_props(ps).len()),
        ),
        spec_encode_props(ps).len() >= 1,
{
    reveal(spec_props_at);
    let d = pre + spec_encode_props(ps) + post;
    assert(d.subrange(pre.len() as int, d.len() as int) =~= spec_encode_props(ps) + post);
    lemma_props_roundtrip(ps, post);
}

proof fn lemma_sub_options_bits(q: u8, nl: bool, rap: bool, rh: u8)
    requires
        q <= 2,
        rh <= 2,
    ensures
        ({
            let o = (q + (if nl { 0x04int } else { 0int }) + (if rap { 0x08int } else { 0int }) + rh * 16) as u8;
            &&& o & 0x03 == q
            &&& (o & 0x04 != 0) == nl
            &&& (o & 0x08 != 0) == rap
            &&& (o >> 4) & 0x03 == rh
        }),
{
    assert({
        let o = (q + (if nl { 0x04int } else { 0int }) + (if rap { 0x08int } else { 0int }) + rh * 16) as u8;
        &&& o & 0x03 == q
        &&& (o & 0x04 != 0) == nl
        &&& (o & 0x08 != 0) == rap
        &&& (o >> 4) & 0x03 == rh
    }) by (bit_vector)
        requires
            q <= 2,
            rh <= 2,
    ;
}

proof fn lemma_sub_filters_roundtrip(pre: Seq<u8>, fs: Seq<SubscribeFilterV5View>, acc: Seq<SubscribeFilterV5View>)
    requires
        forall|i: int| 0 <= i < fs.len() ==> fits_u16_string(#[trigger] fs[i].path),
    ensures
        spec_decode_sub_filters(
            pre + concat_map(fs, |f: SubscribeFilterV5View| spec_sub_entry(f)),
            pre.len(),
            acc,
        ) == Ok::<Seq<SubscribeFilterV5View>, Fault>(acc + fs),
    decreases fs.len(),
{
    let f = |x: SubscribeFilterV5View| spec_sub_entry(x);
    let d = pre + concat_map(fs, f);
    if fs.len() == 0 {
        assert(d =~= pre);
        assert(acc + fs =~= acc);
    } else {
        let x = fs[0];
        let tail = concat_map(fs.drop_first(), f);
        assert(fits_u16_string(fs[0].path));
        let o = spec_sub_options(x);
        assert(d =~= pre + spec_encode_string(x.path) + (seq![o] + tail));
        lemma_string_at_concat(pre, x.path, seq![o] + tail);
        let p1 = pre.len() + spec_encode_string(x.path).len();
        assert(d[p1 as int] == o);
        QoS::lemma_spec_from_to(x.qos);
        lemma_sub_options_bits(x.qos.spec_to_u8(), x.no_local, x.retain_as_published, x.retain_handling.spec_to_u8());
        assert(0u8 & 0x03u8 == 0u8 && 1u8 & 0x03u8 == 1u8 && 2u8 & 0x03u8 == 2u8) by (bit_vector);
        assert(spec_sub_filter(x.path, o) == Some(x));
        let pre2 = pre + spec_sub_entry(x);
        assert(d =~= pre2 + tail);
        assert forall|i: int| 0 <= i < fs.drop_first().len() implies fits_u16_string(
            #[trigger] fs.drop_first()[i].path,
        ) by {
            assert(fs.drop_first()[i] == fs[i + 1]);
        }
        lemma_sub_filters_roundtrip(pre2, fs.drop_first(), acc.push(x));
        assert(acc.push(x) + fs.drop_first() =~= acc + fs);
    }
}

proof fn lemma_unsub_filters_roundtrip(pre: Seq<u8>, fs: Seq<Seq<char>>, acc: Seq<Seq<char>>)
    requires
        forall|i: int| 0 <= i < fs.len() ==> fits_u16_string(#[trigger] fs[i]),
    ensures
        spec_decode_unsub_filters(pre + concat_map(fs, |f: Seq<char>| spec_encode_string(f)), pre.len(), acc)
            == Ok::<Seq<Seq<char>>, Fault>(acc + fs),
    decreases fs.len(),
{
    let f = |x: Seq<char>| spec_encode_string(x);
    let d = pre + concat_map(fs, f);
    if fs.len() == 0 {
        assert(d =~= pre);
        assert(acc + fs =~= acc);
    } else {
        let x = fs[0];
        let tail = concat_map(fs.drop_first(), f);
        assert(fits_u16_string(fs[0]));
        assert(d =~= pre + spec_encode_string(x) + tail);
        lemma_string_at_concat(pre, x, tail);
        let pre2 = pre + spec_encode_string(x);
        assert(d =~= pre2 + tail);
        assert forall|i: int| 0 <= i < fs.drop_first().len() implies fits_u16_string(
            #[trigger] fs.drop_first()[i],
        ) by {
            assert(fs.drop_first()[i] == fs[i + 1]);
        }
        lemma_unsub_filters_roundtrip(pre2, fs.drop_first(), acc.push(x));
        assert(acc.push(x) + fs.drop_first() =~= acc + fs);
    }
}

proof fn lemma_reason_codes_roundtrip(cs: Seq<ReasonCode>)
    ensures
        spec_reason_codes(spec_reason_bytes(cs)) == cs,
    decreases cs.len(),
{
    if cs.len() > 0 {
        lemma_reason_codes_roundtrip(cs.drop_last());
        assert(spec_reason_bytes(cs).drop_last() =~= spec_reason_bytes(cs.drop_last()));
        ReasonCode::lemma_spec_from_to(cs.last());
        assert(cs =~= cs.drop_last().push(cs.last()));
    } else {
        assert(spec_reason_bytes(cs) =~= Seq::<u8>::empty());
    }
}

proof fn lemma_opt_string_roundtrip(pre: Seq<u8>, s: Option<Seq<char>>, post: Seq<u8>, present: bool)
    requires
        present == (s is Some),
        s matches Some(v) ==> fits_u16_string(v),
    ensures
        spec_opt_string_at(pre + spec_opt_string(s) + post, pre.len(), present) == Ok::<(Option<Seq<char>>, nat), Fault>(
            (s, pre.len() + spec_opt_string(s).len()),
        ),
{
    if let Some(v) = s {
        lemma_string_at_concat(pre, v, post);
    }
}

proof fn lemma_will_roundtrip(pre: Seq<u8>, w: Option<WillV5View>, post: Seq<u8>, flags: u8)
    requires
        (flags & 0x04 != 0) == (w is Some),
        w matches Some(wv) ==> {
            &&& fits_u16_string(wv.topic)
            &&& wv.payload.len() < 65536
            &&& props_well_formed(wv.properties)
            &&& wv.delay_interval == (match spec_first_u32(wv.properties, PropertyId::WillDelayInterval) {
                Some(v) => v,
                None => 0,
            })
            &&& spec_will_qos(flags) == wv.qos
            &&& (flags & 0x20 != 0) == wv.retain
        },
    ensures
        spec_decode_will(pre + spec_will_bytes(w) + post, pre.len(), flags) == Ok::<(Option<WillV5View>, nat), Fault>(
            (w, pre.len() + spec_will_bytes(w).len()),
        ),
{
    if let Some(wv) = w {
        let d = pre + spec_will_bytes(w) + post;
        let ep = spec_encode_props(wv.properties);
        let m16 = spec_u16_be(wv.payload.len() as u16);
        assert(d =~= pre + ep + (spec_encode_string(wv.topic) + m16 + wv.payload + post));
        lemma_props_at_concat(pre, wv.properties, spec_encode_string(wv.topic) + m16 + wv.payload + post);
        let b0 = pre + ep;
        assert(d =~= b0 + spec_encode_string(wv.topic) + (m16 + wv.payload + post));
        lemma_string_at_concat(b0, wv.topic, m16 + wv.payload + post);
        let bt = b0 + spec_encode_string(wv.topic);
        assert(d =~= bt + m16 + wv.payload + post);
        lemma_binary_at_concat(bt, wv.payload, post);
    } else {
        assert(pre + spec_will_bytes(w) + post =~= pre + post);
    }
}

#[verifier::spinoff_prover]
#[verifier::rlimit(60)]
proof fn lemma_connect_payload_roundtrip(c: ConnectV5View, b1: Seq<u8>)
    requires
        v5_well_formed(PacketV5View::Connect(c)),
        ({
            let flags = spec_connect_flags(c);
            &&& (flags & 0x02 != 0) == c.clean_start
            &&& (flags & 0x04 != 0) == (c.will is Some)
            &&& (c.will matches Some(wv) ==> spec_will_qos(flags) == wv.qos && (flags & 0x20 != 0) == wv.retain)
            &&& (flags & 0x40 != 0) == (c.password is Some)
            &&& (flags & 0x80 != 0) == (c.username is Some)
        }),
    ensures
        spec_decode_connect_payload(
            b1 + spec_encode_string(c.client_id) + spec_will_bytes(c.will) + spec_opt_string(c.username)
                + spec_opt_string(c.password),
            b1.len(),
            spec_connect_flags(c),
            c.keep_alive,
            c.properties,
        ) == Ok::<ConnectV5View, Fault>(c),
{
    let flags = spec_connect_flags(c);
    let w = spec_will_bytes(c.will);
    let u = spec_opt_string(c.username);
    let pw = spec_opt_string(c.password);
    let body = b1 + spec_encode_string(c.client_id) + w + u + pw;
    assert(body =~= b1 + spec_encode_string(c.client_id) + (w + u + pw));
    lemma_string_at_concat(b1, c.client_id, w + u + pw);
    let b2 = b1 + spec_encode_string(c.client_id);
    assert(body =~= b2 + w + (u + pw));
    lemma_will_roundtrip(b2, c.will, u + pw, flags);
    let b3 = b2 + w;
    assert(body =~= b3 + u + pw);
    lemma_opt_string_roundtrip(b3, c.username, pw, flags & 0x80 != 0);
    let b4 = b3 + u;
    assert(body =~= b4 + pw + Seq::<u8>::empty());
    lemma_opt_string_roundtrip(b4, c.password, Seq::<u8>::empty(), flags & 0x40 != 0);
}

#[verifier::spinoff_prover]
#[verifier::rlimit(60)]
proof fn lemma_connect_body_roundtrip(c: ConnectV5View)
    requires
        v5_well_formed(PacketV5View::Connect(c)),
    ensures
        spec_decode_connect(spec_connect_body(c)) == Ok::<ConnectV5View, Fault>(c),
{
    let flags = spec_connect_flags(c);
    let (wq, wr) = match c.will {
        Some(w) => (w.qos.spec_to_u8(), w.retain),
        None => (0u8, false),
    };
    if let Some(wv) = c.will {
        QoS::lemma_spec_from_to(wv.qos);
    }
    assert(flags == crate::v3::codec::flags_byte(c.clean_start, c.will is Some, wq, wr, c.password is Some, c.username is Some));
    crate::v3::codec::lemma_flags_byte_bits(c.clean_start, c.will is Some, wq, wr, c.password is Some, c.username is Some);

    let head = seq![0x00u8, 0x04, 0x4D, 0x51, 0x54, 0x54, 0x05, flags];
    let b0 = head + spec_u16_be(c.keep_alive);
    let ep = spec_encode_props(c.properties);
    let rest = spec_encode_string(c.client_id) + spec_will_bytes(c.will) + spec_opt_string(c.username)
        + spec_opt_string(c.password);
    let body = spec_connect_body(c);
    assert(body =~= b0 + ep + rest);
    assert(body =~= seq![0x00u8, 0x04, 0x4D, 0x51, 0x54, 0x54] + body.subrange(6, body.len() as int));
    crate::v3::codec::lemma_protocol_name_decodes(body.subrange(6, body.len() as int));
    assert(body[6] == 5);
    assert(body[7] == flags);
    lemma_u16_be_roundtrip(c.keep_alive);
    assert(be16(body[8], body[9]) as u16 == c.keep_alive);
    lemma_props_at_concat(b0, c.properties, rest);
    let b1 = b0 + ep;
    assert(body =~= b1 + spec_encode_string(c.client_id) + spec_will_bytes(c.will) + spec_opt_string(c.username)
        + spec_opt_string(c.password));
    lemma_connect_payload_roundtrip(c, b1);
}

proof fn lemma_publish_body_roundtrip(x: PublishV5View)
    requires
        v5_well_formed(PacketV5View::Publish(x)),
    ensures
        spec_decode_publish(spec_publish_body(x), spec_publish_header(x)) == Ok::<PublishV5View, Fault>(x),
{
    let body = spec_publish_body(x);
    let d = spec_publish_has_id(x);
    crate::v3::codec::lemma_publish_header_bits(x.qos.spec_to_u8(), x.retain, false);
    QoS::lemma_spec_from_to(x.qos);
    let mid = if d { spec_u16_be(x.packet_id.unwrap()) } else { Seq::<u8>::empty() };
    let ep = spec_encode_props(x.properties);
    assert(body =~= Seq::<u8>::empty() + spec_encode_string(x.topic) + (ep + mid + x.payload));
    lemma_string_at_concat(Seq::<u8>::empty(), x.topic, ep + mid + x.payload);
    let b0 = spec_encode_string(x.topic);
    assert(body =~= b0 + ep + (mid + x.payload));
    lemma_props_at_concat(b0, x.properties, mid + x.payload);
    let k = (b0 + ep).len();
    if d {
        lemma_u16_be_roundtrip(x.packet_id.unwrap());
        assert(body[k as int] == mid[0]);
        assert(body[k as int + 1] == mid[1]);
        assert(body.subrange(k as int + 2, body.len() as int) =~= x.payload);
    } else {
        assert(body.subrange(k as int, body.len() as int) =~= x.payload);
    }
}

proof fn lemma_ack_body_roundtrip(a: AckV5View)
    requires
        props_well_formed(a.properties),
    ensures
        spec_decode_ack(spec_ack_body(a)) == Ok::<AckV5View, Fault>(a),
{
    let body = spec_ack_body(a);
    let pre = spec_u16_be(a.packet_id) + seq![a.reason_code.spec_to_u8()];
    lemma_props_at_concat(pre, a.properties, Seq::<u8>::empty());
    assert(body =~= pre + spec_encode_props(a.properties) + Seq::<u8>::empty());
    lemma_u16_be_roundtrip(a.packet_id);
    ReasonCode::lemma_spec_from_to(a.reason_code);
    assert(body[2] == a.reason_code.spec_to_u8());
}

proof fn lemma_codes_body_roundtrip(c: CodesV5View)
    requires
        props_well_formed(c.properties),
    ensures
        spec_decode_codes(spec_codes_body(c)) == Ok::<CodesV5View, Fault>(c),
{
    let body = spec_codes_body(c);
    let pre = spec_u16_be(c.packet_id);
    let rb = spec_reason_bytes(c.reason_codes);
    lemma_props_at_concat(pre, c.properties, rb);
    assert(body =~= pre + spec_encode_props(c.properties) + rb);
    lemma_u16_be_roundtrip(c.packet_id);
    let p = pre.len() + spec_encode_props(c.properties).len();
    assert(body.subrange(p as int, body.len() as int) =~= rb);
    lemma_reason_codes_roundtrip(c.reason_codes);
}

proof fn lemma_reason_body_roundtrip(r: ReasonV5View)
    requires
        props_well_formed(r.properties),
    ensures
        spec_decode_disconnect(spec_reason_body(r)) == Ok::<ReasonV5View, Fault>(r),
        spec_decode_auth(spec_reason_body(r)) == Ok::<ReasonV5View, Fault>(r),
{
    let body = spec_reason_body(r);
    let pre = seq![r.reason_code.spec_to_u8()];
    lemma_props_at_concat(pre, r.properties, Seq::<u8>::empty());
    assert(body =~= pre + spec_encode_props(r.properties) + Seq::<u8>::empty());
    ReasonCode::lemma_spec_from_to(r.reason_code);
}

/// The first byte of an encoded packet names its type.
pub open spec fn spec_v5_type(p: PacketV5View) -> PacketType {
    crate::codec::spec_packet_type(crate::codec::MqttPacketView::V5(p))
}

pub(crate) proof fn lemma_v5_first_byte(p: PacketV5View)
    ensures
        PacketType::spec_from_u8(spec_v5_first_byte(p)) == Some(spec_v5_type(p)),
{
    match p {
        PacketV5View::Publish(x) => {
            crate::v3::codec::lemma_publish_header_bits(x.qos.spec_to_u8(), x.retain, false);
            crate::common::lemma_packet_type_roundtrip(
                PacketType::Publish,
                (x.qos.spec_to_u8() * 2 + (if x.retain { 1int } else { 0int })) as u8,
            );
        },
        _ => {
            crate::common::lemma_packet_type_roundtrip(spec_v5_type(p), (spec_v5_first_byte(p) % 16) as u8);
        },
    }
}

proof fn lemma_connack_body_roundtrip(sp: bool, rc: ReasonCode, props: PropsView)
    requires
        props_well_formed(props),
    ensures
        spec_decode_connack(seq![if sp { 1u8 } else { 0u8 }, rc.spec_to_u8()] + spec_encode_props(props)) == Ok::<
            (bool, ReasonCode, PropsView),
            Fault,
        >((sp, rc, props)),
{
    let pre = seq![if sp { 1u8 } else { 0u8 }, rc.spec_to_u8()];
    let body = pre + spec_encode_props(props);
    lemma_props_at_concat(pre, props, Seq::<u8>::empty());
    assert(body =~= pre + spec_encode_props(props) + Seq::<u8>::empty());
    assert(0u8 & 0x01u8 == 0u8 && 1u8 & 0x01u8 == 1u8) by (bit_vector);
    ReasonCode::lemma_spec_from_to(rc);
}

proof fn lemma_subscribe_body_roundtrip(id: u16, fs: Seq<SubscribeFilterV5View>, props: PropsView)
    requires
        v5_well_formed(PacketV5View::Subscribe(id, fs, props)),
    ensures
        spec_decode_subscribe(spec_v5_body(PacketV5View::Subscribe(id, fs, props))) == Ok::<
            (u16, Seq<SubscribeFilterV5View>, PropsView),
            Fault,
        >((id, fs, props)),
{
    let body = spec_v5_body(PacketV5View::Subscribe(id, fs, props));
    let f = |x: SubscribeFilterV5View| spec_sub_entry(x);
    let pre = spec_u16_be(id);
    lemma_props_at_concat(pre, props, concat_map(fs, f));
    assert(body =~= pre + spec_encode_props(props) + concat_map(fs, f));
    lemma_u16_be_roundtrip(id);
    lemma_sub_filters_roundtrip(pre + spec_encode_props(props), fs, Seq::empty());
    assert(Seq::<SubscribeFilterV5View>::empty() + fs =~= fs);
}

proof fn lemma_unsubscribe_body_roundtrip(id: u16, fs: Seq<Seq<char>>, props: PropsView)
    requires
        v5_well_formed(PacketV5View::Unsubscribe(id, fs, props)),
    ensures
        spec_decode_unsubscribe(spec_v5_body(PacketV5View::Unsubscribe(id, fs, props))) == Ok::<
            (u16, Seq<Seq<char>>, PropsView),
            Fault,
        >((id, fs, props)),
{
    let body = spec_v5_body(PacketV5View::Unsubscribe(id, fs, props));
    let f = |x: Seq<char>| spec_encode_string(x);
    let pre = spec_u16_be(id);
    lemma_props_at_concat(pre, props, concat_map(fs, f));
    assert(body =~= pre + spec_encode_props(props) + concat_map(fs, f));
    lemma_u16_be_roundtrip(id);
    lemma_unsub_filters_roundtrip(pre + spec_encode_props(props), fs, Seq::empty());
    assert(Seq::<Seq<char>>::empty() + fs =~= fs);
}

#[verifier::spinoff_prover]
#[verifier::rlimit(60)]
proof fn lemma_v5_body_roundtrip(p: PacketV5View)
    requires
        v5_well_formed(p),
    ensures
        spec_decode_v5_body(spec_v5_type(p), spec_v5_first_byte(p), spec_v5_body(p)) == Ok::<PacketV5View, Fault>(p),
{
    reveal(spec_decode_v5_body);
    let body = spec_v5_body(p);
    match p {
        PacketV5View::Connect(c) => lemma_connect_body_roundtrip(c),
        PacketV5View::ConnAck(sp, rc, props) => lemma_connack_body_roundtrip(sp, rc, props),
        PacketV5View::Publish(x) => lemma_publish_body_roundtrip(x),
        PacketV5View::PubAck(a) => lemma_ack_body_roundtrip(a),
        PacketV5View::PubRec(a) => lemma_ack_body_roundtrip(a),
        PacketV5View::PubRel(a) => lemma_ack_body_roundtrip(a),
        PacketV5View::PubComp(a) => lemma_ack_body_roundtrip(a),
        PacketV5View::Subscribe(id, fs, props) => lemma_subscribe_body_roundtrip(id, fs, props),
        PacketV5View::SubAck(c) => lemma_codes_body_roundtrip(c),
        PacketV5View::Unsubscribe(id, fs, props) => lemma_unsubscribe_body_roundtrip(id, fs, props),
        PacketV5View::UnsubAck(c) => lemma_codes_body_roundtrip(c),
        PacketV5View::Disconnect(r) => lemma_reason_body_roundtrip(r),
        PacketV5View::Auth(r) => lemma_reason_body_roundtrip(r),
        _ => {},
    }
}

proof fn lemma_v5_frame(first: u8, t: PacketType, body: Seq<u8>, rest: Seq<u8>)
    requires
        PacketType::spec_from_u8(first) == Some(t),
        crate::common::spec_frame(first, body).len() <= MAX_PACKET_SIZE,
    ensures
        spec_decode_v5(crate::common::spec_frame(first, body) + rest) == (match spec_decode_v5_body(t, first, body) {
            Ok(p) => Ok::<Option<(PacketV5View, nat)>, Fault>(Some((p, crate::common::spec_frame(first, body).len()))),
            Err(e) => Err(e),
        }),
{
    let enc = crate::common::spec_frame(first, body);
    let buf = enc + rest;
    crate::common::lemma_varint_roundtrip(body.len(), body + rest);
    let lb = crate::common::spec_encode_varint(body.len()).len();
    assert(buf[0] == first);
    assert(buf.subrange(1, buf.len() as int) =~= crate::common::spec_encode_varint(body.len()) + (body + rest));
    assert(enc.len() == 1 + lb + body.len());
    assert(buf.subrange(1 + lb as int, enc.len() as int) =~= body);
}

/// Decoding the bytes the encoder writes for a well-formed packet of at most
/// `MAX_PACKET_SIZE` bytes gives that packet back and consumes exactly its
/// bytes, whatever follows it in the buffer.
pub proof fn lemma_v5_roundtrip(p: PacketV5View, rest: Seq<u8>)
    requires
        v5_well_formed(p),
        spec_encode_v5(p).len() <= MAX_PACKET_SIZE,
    ensures
        spec_decode_v5(spec_encode_v5(p) + rest) == Ok::<Option<(PacketV5View, nat)>, Fault>(
            Some((p, spec_encode_v5(p).len())),
        ),
{
    lemma_v5_first_byte(p);
    lemma_v5_body_roundtrip(p);
    lemma_v5_frame(spec_v5_first_byte(p), spec_v5_type(p), spec_v5_body(p), rest);
}

} // verus!
