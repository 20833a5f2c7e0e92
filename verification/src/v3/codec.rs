//! MQTT 3.1.1 packet encoder/decoder.

use vstd::prelude::*;
use bytes::BytesMut;
use crate::common::{
    QoS, PacketType, MqttError, MqttResult, Fault, invalid, spec_encode_string, spec_u16_be,
    spec_frame, be16, spec_string_at, string_at, spec_binary_at, binary_at, spec_decode_varint,
    decode_remaining_length, append_bytes, push_u16_be, read_u16_be, frame, push_string,
    concat_map, lemma_concat_map_push, lemma_string_at_advances, fits_u16_string,
    lemma_string_at_concat, lemma_binary_at_concat, lemma_u16_be_roundtrip,
};
use crate::text::{buffer_bytes, buffer_from_slice, buffer_as_slice};
use crate::v3::types::{
    ConnectPacket, Will, ConnectReturnCode, ConnAckPacket, PublishPacket, PubAckPacket,
    PubRecPacket, PubRelPacket, PubCompPacket, SubscribePacket, SubscribeFilter,
    SubAckReturnCode, SubAckPacket, UnsubscribePacket, UnsubAckPacket, PingReqPacket,
    PingRespPacket, DisconnectPacket, MqttPacketV3, WillView, ConnectView, PublishView,
    SubscribeFilterView, PacketV3View, filters_view, strings_view,
};

verus! {

/// Maximum size for a single packet (10 MB).
pub const MAX_PACKET_SIZE: usize = 10485760;

// ==================== what each packet is on the wire ====================

/// The connect flags byte: clean session (bit 1), will (bit 2), will QoS
/// (bits 3-4), will retain (bit 5), password (bit 6), username (bit 7).
pub open spec fn spec_connect_flags(p: ConnectView) -> u8 {
    ((if p.clean_session { 2int } else { 0int }) + (match p.will {
        Some(w) => 4 + w.qos.spec_to_u8() * 8 + (if w.retain { 0x20int } else { 0int }),
        None => 0int,
    }) + (if p.password is Some { 0x40int } else { 0int }) + (if p.username is Some {
        0x80int
    } else {
        0int
    })) as u8
}

/// An optional string on the wire: its encoding when present, nothing otherwise.
pub open spec fn spec_opt_string(s: Option<Seq<char>>) -> Seq<u8> {
    match s {
        Some(v) => spec_encode_string(v),
        None => Seq::empty(),
    }
}

/// The will part of a CONNECT payload: topic, then the message with its
/// 16-bit length (the low 16 bits of the message length).
pub open spec fn spec_will_bytes(w: Option<WillView>) -> Seq<u8> {
    match w {
        Some(w) => spec_encode_string(w.topic) + spec_u16_be(w.message.len() as u16) + w.message,
        None => Seq::empty(),
    }
}

/// The CONNECT body: protocol name "MQTT", level 4, flags, keep alive, client
/// id, will, username, password.
pub open spec fn spec_connect_body(p: ConnectView) -> Seq<u8> {
    seq![0x00u8, 0x04, 0x4D, 0x51, 0x54, 0x54, 0x04, spec_connect_flags(p)] + spec_u16_be(p.keep_alive)
        + spec_encode_string(p.client_id) + spec_will_bytes(p.will) + spec_opt_string(p.username)
        + spec_opt_string(p.password)
}

/// Whether PUBLISH sets its DUP flag and carries a packet identifier: it
/// has one and its QoS is above 0.
pub open spec fn spec_publish_has_id(p: PublishView) -> bool {
    p.packet_id is Some && p.qos != QoS::AtMostOnce
}

/// The PUBLISH fixed-header byte: type 3, DUP, QoS and RETAIN flags.
pub open spec fn spec_publish_header(p: PublishView) -> u8 {
    (0x30 + p.qos.spec_to_u8() * 2 + (if p.retain { 1int } else { 0int }) + (if spec_publish_has_id(p) {
        8int
    } else {
        0int
    })) as u8
}

/// The PUBLISH body: topic, the packet identifier when QoS is above 0, payload.
pub open spec fn spec_publish_body(p: PublishView) -> Seq<u8> {
    spec_encode_string(p.topic) + (if spec_publish_has_id(p) {
        spec_u16_be(p.packet_id.unwrap())
    } else {
        Seq::empty()
    }) + p.payload
}

/// One SUBSCRIBE entry: the filter string, then its requested QoS byte.
pub open spec fn spec_sub_entry(f: SubscribeFilterView) -> Seq<u8> {
    spec_encode_string(f.path) + seq![f.qos.spec_to_u8()]
}

/// The return-code bytes of a SUBACK.
pub open spec fn spec_suback_bytes(codes: Seq<SubAckReturnCode>) -> Seq<u8> {
    codes.map_values(|c: SubAckReturnCode| c.spec_to_u8())
}

/// The fixed-header byte of a packet.
pub open spec fn spec_v3_first_byte(p: PacketV3View) -> u8 {
    match p {
        PacketV3View::Connect(_) => 0x10,
        PacketV3View::ConnAck(_) => 0x20,
        PacketV3View::Publish(x) => spec_publish_header(x),
        PacketV3View::PubAck(_) => 0x40,
        PacketV3View::PubRec(_) => 0x50,
        PacketV3View::PubRel(_) => 0x62,
        PacketV3View::PubComp(_) => 0x70,
        PacketV3View::Subscribe(_, _) => 0x82,
        PacketV3View::SubAck(_, _) => 0x90,
        PacketV3View::Unsubscribe(_, _) => 0xA2,
        PacketV3View::UnsubAck(_) => 0xB0,
        PacketV3View::PingReq => 0xC0,
        PacketV3View::PingResp => 0xD0,
        PacketV3View::Disconnect => 0xE0,
    }
}

/// The body of a packet: everything after the remaining length.
pub open spec fn spec_v3_body(p: PacketV3View) -> Seq<u8> {
    match p {
        PacketV3View::Connect(c) => spec_connect_body(c),
        PacketV3View::ConnAck(a) => seq![
            if a.session_present { 1u8 } else { 0u8 },
            a.return_code.spec_to_u8(),
        ],
        PacketV3View::Publish(x) => spec_publish_body(x),
        PacketV3View::PubAck(id) => spec_u16_be(id),
        PacketV3View::PubRec(id) => spec_u16_be(id),
        PacketV3View::PubRel(id) => spec_u16_be(id),
        PacketV3View::PubComp(id) => spec_u16_be(id),
        PacketV3View::Subscribe(id, fs) => spec_u16_be(id) + concat_map(fs, |f: SubscribeFilterView| spec_sub_entry(f)),
        PacketV3View::SubAck(id, cs) => spec_u16_be(id) + spec_suback_bytes(cs),
        PacketV3View::Unsubscribe(id, fs) => spec_u16_be(id) + concat_map(fs, |f: Seq<char>| spec_encode_string(f)),
        PacketV3View::UnsubAck(id) => spec_u16_be(id),
        _ => Seq::empty(),
    }
}

/// The wire form of an MQTT 3.1.1 packet.
pub open spec fn spec_encode_v3(p: PacketV3View) -> Seq<u8> {
    spec_frame(spec_v3_first_byte(p), spec_v3_body(p))
}

/// A CONNACK is four bytes on the wire: type 2 with no flags, remaining
/// length 2, the session-present flag, and the return code's MQTT 3.1.1
/// byte; an accepting CONNACK without a session is `20 02 00 00`, a
/// refusal as not authorized `20 02 00 05`.
pub proof fn lemma_connack_bytes(a: ConnAckPacket)
    ensures
        spec_encode_v3(PacketV3View::ConnAck(a)) == seq![
            0x20u8,
            0x02u8,
            if a.session_present { 1u8 } else { 0u8 },
            a.return_code.spec_to_u8(),
        ],
        spec_encode_v3(PacketV3View::ConnAck(ConnAckPacket { session_present: false, return_code: ConnectReturnCode::Accepted }))
            == seq![0x20u8, 0x02u8, 0x00u8, 0x00u8],
        spec_encode_v3(PacketV3View::ConnAck(ConnAckPacket { session_present: false, return_code: ConnectReturnCode::NotAuthorized }))
            == seq![0x20u8, 0x02u8, 0x00u8, 0x05u8],
{
    assert(crate::common::spec_encode_varint(2) == seq![2u8]);
    assert(spec_encode_v3(PacketV3View::ConnAck(a)) =~= seq![
        0x20u8,
        0x02u8,
        if a.session_present { 1u8 } else { 0u8 },
        a.return_code.spec_to_u8(),
    ]);
    let acc = ConnAckPacket { session_present: false, return_code: ConnectReturnCode::Accepted };
    let na = ConnAckPacket { session_present: false, return_code: ConnectReturnCode::NotAuthorized };
    assert(spec_encode_v3(PacketV3View::ConnAck(acc)) =~= seq![0x20u8, 0x02u8, 0x00u8, 0x00u8]);
    assert(spec_encode_v3(PacketV3View::ConnAck(na)) =~= seq![0x20u8, 0x02u8, 0x00u8, 0x05u8]);
}

// ==================== encoders ====================

/// Encode a MQTT 3.1.1 packet into bytes.
pub fn encode_packet(packet: &MqttPacketV3) -> (r: MqttResult<BytesMut>)
    ensures
        r matches Ok(b) && buffer_bytes(b) == spec_encode_v3(packet@),
{
    match packet {
        MqttPacketV3::Connect(p) => encode_connect(p),
        MqttPacketV3::ConnAck(p) => encode_connack(p),
        MqttPacketV3::Publish(p) => encode_publish(p),
        MqttPacketV3::PubAck(p) => encode_puback(p),
        MqttPacketV3::PubRec(p) => encode_pubrec(p),
        MqttPacketV3::PubRel(p) => encode_pubrel(p),
        MqttPacketV3::PubComp(p) => encode_pubcomp(p),
        MqttPacketV3::Subscribe(p) => encode_subscribe(p),
        MqttPacketV3::SubAck(p) => encode_suback(p),
        MqttPacketV3::Unsubscribe(p) => encode_unsubscribe(p),
        MqttPacketV3::UnsubAck(p) => encode_unsuback(p),
        MqttPacketV3::PingReq(p) => encode_pingreq(p),
        MqttPacketV3::PingResp(p) => encode_pingresp(p),
        MqttPacketV3::Disconnect(p) => encode_disconnect(p),
    }
}

/// Frame a body behind its fixed-header byte into a buffer.
fn framed(first: u8, body: &Vec<u8>) -> (r: MqttResult<BytesMut>)
    ensures
        r matches Ok(b) && buffer_bytes(b) == spec_frame(first, body@),
{
    let out = frame(first, body.as_slice());
    Ok(buffer_from_slice(out.as_slice()))
}

/// The connect flags byte of a CONNECT packet.
fn connect_flags(packet: &ConnectPacket) -> (flags: u8)
    ensures
        flags == spec_connect_flags(packet@),
{
    // Each flag is its own bit, so adding them sets them.
    let mut flags: u8 = 0;
    if packet.clean_session {
        flags = flags + 0x02;
    }
    match &packet.will {
        Some(will) => {
            flags = flags + 0x04;
            flags = flags + will.qos.to_u8() * 8;
            if will.retain {
                flags = flags + 0x20;
            }
        },
        None => {},
    }
    if packet.password.is_some() {
        flags = flags + 0x40;
    }
    if packet.username.is_some() {
        flags = flags + 0x80;
    }
    flags
}

/// The CONNECT payload: client id, will, username, password.
fn connect_payload(packet: &ConnectPacket) -> (payload: Vec<u8>)
    ensures
        payload@ == spec_encode_string(packet@.client_id) + spec_will_bytes(packet@.will)
            + spec_opt_string(packet@.username) + spec_opt_string(packet@.password),
{
    let mut payload: Vec<u8> = Vec::new();
    push_string(&mut payload, packet.client_id.as_str());
    let ghost after_id = payload@;
    match &packet.will {
        Some(will) => {
            push_string(&mut payload, will.topic.as_str());
            let msg_len = will.message.len();
            push_u16_be(&mut payload, msg_len as u16);
            append_bytes(&mut payload, will.message.as_slice());
        },
        None => {},
    }
    assert(payload@ =~= after_id + spec_will_bytes(packet@.will));
    let ghost after_will = payload@;
    match &packet.username {
        Some(username) => push_string(&mut payload, username.as_str()),
        None => {},
    }
    assert(payload@ =~= after_will + spec_opt_string(packet@.username));
    let ghost after_user = payload@;
    match &packet.password {
        Some(password) => push_string(&mut payload, password.as_str()),
        None => {},
    }
    assert(payload@ =~= after_user + spec_opt_string(packet@.password));
    payload
}

/// Encode a CONNECT packet.
pub fn encode_connect(packet: &ConnectPacket) -> (r: MqttResult<BytesMut>)
    ensures
        r matches Ok(b) && buffer_bytes(b) == spec_frame(0x10, spec_connect_body(packet@)),
{
    let mut remaining: Vec<u8> = Vec::new();

    // Protocol name + level
    remaining.push(0x00);
    remaining.push(0x04);
    remaining.push(0x4D);
    remaining.push(0x51);
    remaining.push(0x54);
    remaining.push(0x54);
    remaining.push(0x04);
    remaining.push(connect_flags(packet));

    // Keep alive
    push_u16_be(&mut remaining, packet.keep_alive);

    let payload = connect_payload(packet);
    append_bytes(&mut remaining, payload.as_slice());
    assert(remaining@ =~= spec_connect_body(packet@));
    framed(PacketType::Connect.to_u8(), &remaining)
}

/// Encode a CONNACK packet.
pub fn encode_connack(packet: &ConnAckPacket) -> (r: MqttResult<BytesMut>)
    ensures
        r matches Ok(b) && buffer_bytes(b) == spec_encode_v3(PacketV3View::ConnAck(*packet)),
{
    let mut body: Vec<u8> = Vec::new();
    body.push(if packet.session_present { 0x01 } else { 0x00 });
    body.push(packet.return_code.to_u8());
    framed(PacketType::ConnAck.to_u8(), &body)
}

/// Encode a PUBLISH packet.
pub fn encode_publish(packet: &PublishPacket) -> (r: MqttResult<BytesMut>)
    ensures
        r matches Ok(b) && buffer_bytes(b) == spec_encode_v3(PacketV3View::Publish(packet@)),
{
    let dup = packet.packet_id.is_some() && packet.qos != QoS::AtMostOnce;
    // Type, QoS, RETAIN and DUP occupy distinct bits, so adding them sets them.
    let mut fixed_byte = PacketType::Publish.to_u8();
    fixed_byte = fixed_byte + packet.qos.to_u8() * 2;
    if packet.retain {
        fixed_byte = fixed_byte + 0x01;
    }
    if dup {
        fixed_byte = fixed_byte + 0x08;
    }

    let mut variable: Vec<u8> = Vec::new();
    push_string(&mut variable, packet.topic.as_str());
    match packet.packet_id {
        Some(pid) => {
            if packet.qos != QoS::AtMostOnce {
                push_u16_be(&mut variable, pid);
            }
        },
        None => {},
    }
    append_bytes(&mut variable, packet.payload.as_slice());
    assert(variable@ =~= spec_publish_body(packet@));
    framed(fixed_byte, &variable)
}

/// A two-byte acknowledgement: fixed-header byte, remaining length 2, packet id.
fn encode_ack(first: u8, packet_id: u16) -> (r: MqttResult<BytesMut>)
    ensures
        r matches Ok(b) && buffer_bytes(b) == spec_frame(first, spec_u16_be(packet_id)),
{
    let mut body: Vec<u8> = Vec::new();
    push_u16_be(&mut body, packet_id);
    framed(first, &body)
}

/// Encode a PUBACK packet.
pub fn encode_puback(packet: &PubAckPacket) -> (r: MqttResult<BytesMut>)
    ensures
        r matches Ok(b) && buffer_bytes(b) == spec_encode_v3(PacketV3View::PubAck(packet.packet_id)),
{
    encode_ack(PacketType::PubAck.to_u8(), packet.packet_id)
}

/// Encode a PUBREC packet.
pub fn encode_pubrec(packet: &PubRecPacket) -> (r: MqttResult<BytesMut>)
    ensures
        r matches Ok(b) && buffer_bytes(b) == spec_encode_v3(PacketV3View::PubRec(packet.packet_id)),
{
    encode_ack(PacketType::PubRec.to_u8(), packet.packet_id)
}

/// Encode a PUBREL packet (fixed header with flag bit 1 set).
pub fn encode_pubrel(packet: &PubRelPacket) -> (r: MqttResult<BytesMut>)
    ensures
        r matches Ok(b) && buffer_bytes(b) == spec_encode_v3(PacketV3View::PubRel(packet.packet_id)),
{
    encode_ack(PacketType::PubRel.to_u8() + 0x02, packet.packet_id)
}

/// Encode a PUBCOMP packet.
pub fn encode_pubcomp(packet: &PubCompPacket) -> (r: MqttResult<BytesMut>)
    ensures
        r matches Ok(b) && buffer_bytes(b) == spec_encode_v3(PacketV3View::PubComp(packet.packet_id)),
{
    encode_ack(PacketType::PubComp.to_u8(), packet.packet_id)
}

/// Encode a SUBSCRIBE packet (fixed header with flag bit 1 set).
pub fn encode_subscribe(packet: &SubscribePacket) -> (r: MqttResult<BytesMut>)
    ensures
        r matches Ok(b) && buffer_bytes(b) == spec_encode_v3(
            PacketV3View::Subscribe(packet.packet_id, filters_view(packet.filters@)),
        ),
{
    let ghost fs = filters_view(packet.filters@);
    let ghost f = |x: SubscribeFilterView| spec_sub_entry(x);
    let mut payload: Vec<u8> = Vec::new();
    push_u16_be(&mut payload, packet.packet_id);
    let mut i: usize = 0;
    assert(fs.take(0) =~= Seq::<SubscribeFilterView>::empty());
    while i < packet.filters.len()
        invariant
            i <= packet.filters.len(),
            fs == filters_view(packet.filters@),
            f == (|x: SubscribeFilterView| spec_sub_entry(x)),
            payload@ == spec_u16_be(packet.packet_id) + concat_map(fs.take(i as int), f),
        decreases packet.filters.len() - i,
    {
        let filter = &packet.filters[i];
        proof {
            assert(fs.take(i + 1) =~= fs.take(i as int).push(fs[i as int]));
            lemma_concat_map_push(fs.take(i as int), fs[i as int], f);
        }
        push_string(&mut payload, filter.path.as_str());
        payload.push(filter.qos.to_u8());
        i = i + 1;
        assert(payload@ =~= spec_u16_be(packet.packet_id) + concat_map(fs.take(i as int), f));
    }
    assert(fs.take(i as int) =~= fs);
    framed(PacketType::Subscribe.to_u8() + 0x02, &payload)
}

/// Encode a SUBACK packet.
pub fn encode_suback(packet: &SubAckPacket) -> (r: MqttResult<BytesMut>)
    ensures
        r matches Ok(b) && buffer_bytes(b) == spec_encode_v3(
            PacketV3View::SubAck(packet.packet_id, packet.return_codes@),
        ),
{
    let ghost cs = packet.return_codes@;
    let mut payload: Vec<u8> = Vec::new();
    push_u16_be(&mut payload, packet.packet_id);
    let mut i: usize = 0;
    while i < packet.return_codes.len()
        invariant
            i <= packet.return_codes.len(),
            cs == packet.return_codes@,
            payload@ == spec_u16_be(packet.packet_id) + spec_suback_bytes(cs.take(i as int)),
        decreases packet.return_codes.len() - i,
    {
        payload.push(packet.return_codes[i].to_u8());
        i = i + 1;
        assert(payload@ =~= spec_u16_be(packet.packet_id) + spec_suback_bytes(cs.take(i as int)));
    }
    assert(cs.take(i as int) =~= cs);
    framed(PacketType::SubAck.to_u8(), &payload)
}

/// Encode an UNSUBSCRIBE packet (fixed header with flag bit 1 set).
pub fn encode_unsubscribe(packet: &UnsubscribePacket) -> (r: MqttResult<BytesMut>)
    ensures
        r matches Ok(b) && buffer_bytes(b) == spec_encode_v3(
            PacketV3View::Unsubscribe(packet.packet_id, strings_view(packet.filters@)),
        ),
{
    let ghost fs = strings_view(packet.filters@);
    let ghost f = |x: Seq<char>| spec_encode_string(x);
    let mut payload: Vec<u8> = Vec::new();
    push_u16_be(&mut payload, packet.packet_id);
    let mut i: usize = 0;
    assert(fs.take(0) =~= Seq::<Seq<char>>::empty());
    while i < packet.filters.len()
        invariant
            i <= packet.filters.len(),
            fs == strings_view(packet.filters@),
            f == (|x: Seq<char>| spec_encode_string(x)),
            payload@ == spec_u16_be(packet.packet_id) + concat_map(fs.take(i as int), f),
        decreases packet.filters.len() - i,
    {
        proof {
            assert(fs.take(i + 1) =~= fs.take(i as int).push(fs[i as int]));
            lemma_concat_map_push(fs.take(i as int), fs[i as int], f);
        }
        push_string(&mut payload, packet.filters[i].as_str());
        i = i + 1;
        assert(payload@ =~= spec_u16_be(packet.packet_id) + concat_map(fs.take(i as int), f));
    }
    assert(fs.take(i as int) =~= fs);
    framed(PacketType::Unsubscribe.to_u8() + 0x02, &payload)
}

/// Encode an UNSUBACK packet.
pub fn encode_unsuback(packet: &UnsubAckPacket) -> (r: MqttResult<BytesMut>)
    ensures
        r matches Ok(b) && buffer_bytes(b) == spec_encode_v3(PacketV3View::UnsubAck(packet.packet_id)),
{
    encode_ack(PacketType::UnsubAck.to_u8(), packet.packet_id)
}

/// Encode a PINGREQ packet.
pub fn encode_pingreq(_packet: &PingReqPacket) -> (r: MqttResult<BytesMut>)
    ensures
        r matches Ok(b) && buffer_bytes(b) == spec_encode_v3(PacketV3View::PingReq),
{
    framed(PacketType::PingReq.to_u8(), &Vec::new())
}

/// Encode a PINGRESP packet.
pub fn encode_pingresp(_packet: &PingRespPacket) -> (r: MqttResult<BytesMut>)
    ensures
        r matches Ok(b) && buffer_bytes(b) == spec_encode_v3(PacketV3View::PingResp),
{
    framed(PacketType::PingResp.to_u8(), &Vec::new())
}

/// Encode a DISCONNECT packet.
pub fn encode_disconnect(_packet: &DisconnectPacket) -> (r: MqttResult<BytesMut>)
    ensures
        r matches Ok(b) && buffer_bytes(b) == spec_encode_v3(PacketV3View::Disconnect),
{
    framed(PacketType::Disconnect.to_u8(), &Vec::new())
}

// ==================== what decoding gives ====================

/// The will QoS named by bits 3-4 of the connect flags (QoS 0 for the
/// unused value 3).
pub open spec fn spec_will_qos(flags: u8) -> QoS {
    match QoS::spec_from_u8((flags >> 3) & 0x03) {
        Some(q) => q,
        None => QoS::AtMostOnce,
    }
}

/// Decoding the will part of a CONNECT payload at `pos`, present when flag
/// bit 2 is set.
pub open spec fn spec_decode_will(d: Seq<u8>, pos: nat, flags: u8) -> Result<(Option<WillView>, nat), Fault> {
    if flags & 0x04 == 0 {
        Ok((None, pos))
    } else {
        match spec_string_at(d, pos) {
            Err(e) => Err(e),
            Ok((topic, p1)) => match spec_binary_at(d, p1) {
                Err(e) => Err(e),
                Ok((message, p2)) => Ok(
                    (
                        Some(
                            WillView {
                                topic,
                                message,
                                qos: spec_will_qos(flags),
                                retain: flags & 0x20 != 0,
                            },
                        ),
                        p2,
                    ),
                ),
            },
        }
    }
}

/// Decoding an optional string at `pos`, present when `present` holds.
pub open spec fn spec_opt_string_at(d: Seq<u8>, pos: nat, present: bool) -> Result<(Option<Seq<char>>, nat), Fault> {
    if !present {
        Ok((None, pos))
    } else {
        match spec_string_at(d, pos) {
            Err(e) => Err(e),
            Ok((s, p)) => Ok((Some(s), p)),
        }
    }
}

/// Decoding a CONNECT payload at `pos`, given the flags and keep alive.
pub open spec fn spec_decode_connect_payload(d: Seq<u8>, pos: nat, flags: u8, keep_alive: u16) -> Result<ConnectView, Fault> {
    match spec_string_at(d, pos) {
        Err(e) => Err(e),
        Ok((client_id, p1)) => match spec_decode_will(d, p1, flags) {
            Err(e) => Err(e),
            Ok((will, p2)) => match spec_opt_string_at(d, p2, flags & 0x80 != 0) {
                Err(e) => Err(e),
                Ok((username, p3)) => match spec_opt_string_at(d, p3, flags & 0x40 != 0) {
                    Err(e) => Err(e),
                    Ok((password, _p4)) => Ok(
                        ConnectView {
                            client_id,
                            clean_session: flags & 0x02 != 0,
                            keep_alive,
                            will,
                            username,
                            password,
                        },
                    ),
                },
            },
        },
    }
}

/// Decoding a CONNECT body: the protocol name (any string), level 4 only,
/// flags, keep alive, then the payload.
pub open spec fn spec_decode_connect(d: Seq<u8>) -> Result<ConnectView, Fault> {
    match spec_string_at(d, 0) {
        Err(e) => Err(e),
        Ok((_name, p0)) => if p0 >= d.len() {
            Err(Fault::Invalid)
        } else if d[p0 as int] != 4 {
            Err(Fault::Version(d[p0 as int]))
        } else if p0 + 1 >= d.len() {
            Err(Fault::Invalid)
        } else if p0 + 4 > d.len() {
            Err(Fault::Invalid)
        } else {
            spec_decode_connect_payload(
                d,
                p0 + 4,
                d[p0 as int + 1],
                be16(d[p0 as int + 2], d[p0 as int + 3]) as u16,
            )
        },
    }
}

/// Decoding a CONNACK body.
pub open spec fn spec_decode_connack(d: Seq<u8>) -> Result<ConnAckPacket, Fault> {
    if d.len() < 2 {
        Err(Fault::Invalid)
    } else {
        match ConnectReturnCode::spec_from_u8(d[1]) {
            None => Err(Fault::Invalid),
            Some(c) => Ok(ConnAckPacket { session_present: d[0] & 0x01 != 0, return_code: c }),
        }
    }
}

/// Decoding a PUBLISH body given its fixed-header byte: QoS from bits 1-2
/// (3 is refused), RETAIN from bit 0, the packet identifier when QoS is
/// above 0, and the rest as payload.
pub open spec fn spec_decode_publish(d: Seq<u8>, header: u8) -> Result<PublishView, Fault> {
    match QoS::spec_from_u8((header >> 1) & 0x03) {
        None => Err(Fault::Invalid),
        Some(qos) => match spec_string_at(d, 0) {
            Err(e) => Err(e),
            Ok((topic, p)) => if qos != QoS::AtMostOnce {
                if p + 2 > d.len() {
                    Err(Fault::Invalid)
                } else {
                    Ok(
                        PublishView {
                            topic,
                            payload: d.subrange(p as int + 2, d.len() as int),
                            qos,
                            retain: header & 0x01 != 0,
                            packet_id: Some(be16(d[p as int], d[p as int + 1]) as u16),
                        },
                    )
                }
            } else {
                Ok(
                    PublishView {
                        topic,
                        payload: d.subrange(p as int, d.len() as int),
                        qos,
                        retain: header & 0x01 != 0,
                        packet_id: None,
                    },
                )
            },
        },
    }
}

/// Decoding a body that is just a packet identifier.
pub open spec fn spec_decode_packet_id(d: Seq<u8>) -> Result<u16, Fault> {
    if d.len() < 2 {
        Err(Fault::Invalid)
    } else {
        Ok(be16(d[0], d[1]) as u16)
    }
}

/// Decoding SUBSCRIBE entries from `pos` to the end, after those in `acc`.
pub open spec fn spec_decode_sub_filters(d: Seq<u8>, pos: nat, acc: Seq<SubscribeFilterView>) -> Result<Seq<SubscribeFilterView>, Fault>
    decreases d.len() - pos,
{
    if pos >= d.len() {
        Ok(acc)
    } else {
        match spec_string_at(d, pos) {
            Err(e) => Err(e),
            Ok((path, p1)) => if p1 >= d.len() {
                Err(Fault::Invalid)
            } else {
                match QoS::spec_from_u8(d[p1 as int] & 0x03) {
                    None => Err(Fault::Invalid),
                    Some(qos) => {
                        proof {
                            lemma_string_at_advances(d, pos);
                        }
                        spec_decode_sub_filters(d, p1 + 1, acc.push(SubscribeFilterView { path, qos }))
                    },
                }
            },
        }
    }
}

/// Decoding UNSUBSCRIBE filters from `pos` to the end, after those in `acc`.
pub open spec fn spec_decode_unsub_filters(d: Seq<u8>, pos: nat, acc: Seq<Seq<char>>) -> Result<Seq<Seq<char>>, Fault>
    decreases d.len() - pos,
{
    if pos >= d.len() {
        Ok(acc)
    } else {
        match spec_string_at(d, pos) {
            Err(e) => Err(e),
            Ok((path, p1)) => {
                proof {
                    lemma_string_at_advances(d, pos);
                }
                spec_decode_unsub_filters(d, p1, acc.push(path))
            },
        }
    }
}

/// The SUBACK return codes in `d`, bytes that name none left out.
pub open spec fn spec_suback_codes(d: Seq<u8>) -> Seq<SubAckReturnCode>
    decreases d.len(),
{
    if d.len() == 0 {
        Seq::empty()
    } else {
        let prev = spec_suback_codes(d.drop_last());
        match SubAckReturnCode::spec_from_u8(d.last()) {
            Some(c) => prev.push(c),
            None => prev,
        }
    }
}

/// Decoding the body of a packet of type `t` with fixed-header byte `header`.
pub open spec fn spec_decode_v3_body(t: PacketType, header: u8, d: Seq<u8>) -> Result<PacketV3View, Fault> {
    match t {
        PacketType::Connect => match spec_decode_connect(d) {
            Ok(c) => Ok(PacketV3View::Connect(c)),
            Err(e) => Err(e),
        },
        PacketType::ConnAck => match spec_decode_connack(d) {
            Ok(c) => Ok(PacketV3View::ConnAck(c)),
            Err(e) => Err(e),
        },
        PacketType::Publish => match spec_decode_publish(d, header) {
            Ok(p) => Ok(PacketV3View::Publish(p)),
            Err(e) => Err(e),
        },
        PacketType::PubAck => match spec_decode_packet_id(d) {
            Ok(id) => Ok(PacketV3View::PubAck(id)),
            Err(e) => Err(e),
        },
        PacketType::PubRec => match spec_decode_packet_id(d) {
            Ok(id) => Ok(PacketV3View::PubRec(id)),
            Err(e) => Err(e),
        },
        PacketType::PubRel => match spec_decode_packet_id(d) {
            Ok(id) => Ok(PacketV3View::PubRel(id)),
            Err(e) => Err(e),
        },
        PacketType::PubComp => match spec_decode_packet_id(d) {
            Ok(id) => Ok(PacketV3View::PubComp(id)),
            Err(e) => Err(e),
        },
        PacketType::Subscribe => match spec_decode_packet_id(d) {
            Ok(id) => match spec_decode_sub_filters(d, 2, Seq::empty()) {
                Ok(fs) => Ok(PacketV3View::Subscribe(id, fs)),
                Err(e) => Err(e),
            },
            Err(e) => Err(e),
        },
        PacketType::SubAck => match spec_decode_packet_id(d) {
            Ok(id) => Ok(PacketV3View::SubAck(id, spec_suback_codes(d.subrange(2, d.len() as int)))),
            Err(e) => Err(e),
        },
        PacketType::Unsubscribe => match spec_decode_packet_id(d) {
            Ok(id) => match spec_decode_unsub_filters(d, 2, Seq::empty()) {
                Ok(fs) => Ok(PacketV3View::Unsubscribe(id, fs)),
                Err(e) => Err(e),
            },
            Err(e) => Err(e),
        },
        PacketType::UnsubAck => match spec_decode_packet_id(d) {
            Ok(id) => Ok(PacketV3View::UnsubAck(id)),
            Err(e) => Err(e),
        },
        PacketType::PingReq => Ok(PacketV3View::PingReq),
        PacketType::PingResp => Ok(PacketV3View::PingResp),
        PacketType::Disconnect => Ok(PacketV3View::Disconnect),
        PacketType::Auth => Err(Fault::Invalid),
    }
}

/// Decoding a packet from the front of `buf`: `Ok(None)` while more bytes are
/// needed, else the packet and the number of bytes it takes.
pub open spec fn spec_decode_v3(buf: Seq<u8>) -> Result<Option<(PacketV3View, nat)>, Fault> {
    if buf.len() == 0 {
        Ok(None)
    } else {
        match PacketType::spec_from_u8(buf[0]) {
            None => Err(Fault::Invalid),
            Some(t) => if buf.len() < 2 {
                Ok(None)
            } else {
                match spec_decode_varint(buf.subrange(1, buf.len() as int)) {
                    None => Err(Fault::RemainingLength),
                    Some((rem, lb)) => {
                        let total = 1 + lb + rem;
                        if total > MAX_PACKET_SIZE {
                            Err(Fault::TooLarge(total as usize))
                        } else if buf.len() < total {
                            Ok(None)
                        } else {
                            match spec_decode_v3_body(t, buf[0], buf.subrange(1 + lb as int, total as int)) {
                                Ok(p) => Ok(Some((p, total))),
                                Err(e) => Err(e),
                            }
                        }
                    },
                }
            },
        }
    }
}

// ==================== decoders ====================

/// The view of an optional will.
pub open spec fn opt_will_view(w: Option<Will>) -> Option<WillView> {
    match w {
        Some(w) => Some(w@),
        None => None,
    }
}

/// Decode an optional string at `pos`, present when `present` holds.
fn opt_string_at(data: &[u8], pos: usize, present: bool) -> (r: MqttResult<(Option<String>, usize)>)
    requires
        pos <= data.len(),
    ensures
        match r {
            Ok((s, p)) => spec_opt_string_at(data@, pos as nat, present) == Ok::<(Option<Seq<char>>, nat), Fault>(
                (crate::v3::types::opt_string_view(s), p as nat),
            ) && p <= data.len(),
            Err(e) => spec_opt_string_at(data@, pos as nat, present) == Err::<(Option<Seq<char>>, nat), Fault>(e.fault()),
        },
{
    if !present {
        return Ok((None, pos));
    }
    match string_at(data, pos) {
        Ok((s, p)) => Ok((Some(s), p)),
        Err(e) => Err(e),
    }
}

/// Decode the will of a CONNECT payload at `pos`, present when flag bit 2 is set.
fn decode_will(data: &[u8], pos: usize, flags: u8) -> (r: MqttResult<(Option<Will>, usize)>)
    requires
        pos <= data.len(),
    ensures
        match r {
            Ok((w, p)) => spec_decode_will(data@, pos as nat, flags) == Ok::<(Option<WillView>, nat), Fault>(
                (opt_will_view(w), p as nat),
            ) && p <= data.len(),
            Err(e) => spec_decode_will(data@, pos as nat, flags) == Err::<(Option<WillView>, nat), Fault>(e.fault()),
        },
{
    if flags & 0x04 == 0 {
        return Ok((None, pos));
    }
    let qos = match QoS::from_u8((flags >> 3) & 0x03) {
        Some(q) => q,
        None => QoS::AtMostOnce,
    };
    let retain = (flags & 0x20) != 0;
    let (topic, p1) = match string_at(data, pos) {
        Ok(x) => x,
        Err(e) => return Err(e),
    };
    let (message, p2) = match binary_at(data, p1) {
        Ok(x) => x,
        Err(e) => return Err(e),
    };
    Ok((Some(Will { topic, message, qos, retain }), p2))
}

/// Decode a CONNECT body.
pub fn decode_connect(data: &[u8], fixed_header: u8) -> (r: MqttResult<ConnectPacket>)
    ensures
        match r {
            Ok(c) => spec_decode_connect(data@) == Ok::<ConnectView, Fault>(c@),
            Err(e) => spec_decode_connect(data@) == Err::<ConnectView, Fault>(e.fault()),
        },
{
    // Protocol name
    let (_protocol_name, mut pos) = match string_at(data, 0) {
        Ok(x) => x,
        Err(e) => return Err(e),
    };

    // Protocol level
    if pos >= data.len() {
        return Err(invalid("Missing protocol level"));
    }
    let protocol_level = data[pos];
    pos = pos + 1;

    // Only accept MQTT 3.1.1 (level 4)
    if protocol_level != 4 {
        return Err(MqttError::UnsupportedVersion(protocol_level));
    }

    // Connect flags
    if pos >= data.len() {
        return Err(invalid("Missing connect flags"));
    }
    let connect_flags = data[pos];
    pos = pos + 1;

    let clean_session = (connect_flags & 0x02) != 0;
    let password_flag = (connect_flags & 0x40) != 0;
    let username_flag = (connect_flags & 0x80) != 0;

    // Keep alive
    if data.len() - pos < 2 {
        return Err(invalid("Missing keep alive"));
    }
    let keep_alive = read_u16_be(data[pos], data[pos + 1]);
    assert(keep_alive == be16(data@[pos as int], data@[pos + 1]) as u16);
    pos = pos + 2;

    // Client ID
    let (client_id, p1) = match string_at(data, pos) {
        Ok(x) => x,
        Err(e) => return Err(e),
    };

    // Will
    let (will, p2) = match decode_will(data, p1, connect_flags) {
        Ok(x) => x,
        Err(e) => return Err(e),
    };

    // Username
    let (username, p3) = match opt_string_at(data, p2, username_flag) {
        Ok(x) => x,
        Err(e) => return Err(e),
    };

    // Password
    let (password, _p4) = match opt_string_at(data, p3, password_flag) {
        Ok(x) => x,
        Err(e) => return Err(e),
    };

    Ok(ConnectPacket { client_id, clean_session, keep_alive, will, username, password })
}

/// Decode a CONNACK body.
pub fn decode_connack(data: &[u8], _fixed_header: u8) -> (r: MqttResult<ConnAckPacket>)
    ensures
        match r {
            Ok(c) => spec_decode_connack(data@) == Ok::<ConnAckPacket, Fault>(c),
            Err(e) => spec_decode_connack(data@) == Err::<ConnAckPacket, Fault>(e.fault()),
        },
{
    if data.len() < 2 {
        return Err(invalid("CONNACK too short"));
    }
    let session_present = (data[0] & 0x01) != 0;
    match ConnectReturnCode::from_u8(data[1]) {
        Some(return_code) => Ok(ConnAckPacket { session_present, return_code }),
        None => Err(invalid("Unknown CONNACK return code")),
    }
}

/// Decode a PUBLISH body given its fixed-header byte.
pub fn decode_publish(data: &[u8], fixed_header: u8) -> (r: MqttResult<PublishPacket>)
    ensures
        match r {
            Ok(p) => spec_decode_publish(data@, fixed_header) == Ok::<PublishView, Fault>(p@),
            Err(e) => spec_decode_publish(data@, fixed_header) == Err::<PublishView, Fault>(e.fault()),
        },
{
    let qos = match QoS::from_u8((fixed_header >> 1) & 0x03) {
        Some(q) => q,
        None => return Err(invalid("Invalid QoS")),
    };
    let retain = (fixed_header & 0x01) != 0;

    // Topic
    let (topic, mut pos) = match string_at(data, 0) {
        Ok(x) => x,
        Err(e) => return Err(e),
    };

    // Packet ID (only for QoS > 0)
    let packet_id = if qos != QoS::AtMostOnce {
        if data.len() - pos < 2 {
            return Err(invalid("Missing packet ID in PUBLISH"));
        }
        let pid = read_u16_be(data[pos], data[pos + 1]);
        assert(pid == be16(data@[pos as int], data@[pos + 1]) as u16);
        pos = pos + 2;
        Some(pid)
    } else {
        None
    };

    // Payload is everything remaining
    let mut payload: Vec<u8> = Vec::new();
    append_bytes(&mut payload, &data[pos..data.len()]);
    assert(payload@ =~= data@.subrange(pos as int, data.len() as int));

    Ok(PublishPacket { topic, payload, qos, retain, packet_id })
}

/// Decode a body that is just a packet identifier.
fn decode_packet_id(data: &[u8]) -> (r: MqttResult<u16>)
    ensures
        match r {
            Ok(id) => spec_decode_packet_id(data@) == Ok::<u16, Fault>(id),
            Err(e) => spec_decode_packet_id(data@) == Err::<u16, Fault>(e.fault()) && e.fault() == Fault::Invalid,
        },
{
    if data.len() < 2 {
        return Err(invalid("Packet too short for a packet identifier"));
    }
    let id = read_u16_be(data[0], data[1]);
    assert(id == be16(data@[0], data@[1]) as u16);
    Ok(id)
}

/// Decode a PUBACK body.
pub fn decode_puback(data: &[u8]) -> (r: MqttResult<PubAckPacket>)
    ensures
        match r {
            Ok(p) => spec_decode_packet_id(data@) == Ok::<u16, Fault>(p.packet_id),
            Err(e) => spec_decode_packet_id(data@) == Err::<u16, Fault>(e.fault()),
        },
{
    match decode_packet_id(data) {
        Ok(packet_id) => Ok(PubAckPacket { packet_id }),
        Err(_) => Err(invalid("PUBACK too short")),
    }
}

/// Decode a PUBREC body.
pub fn decode_pubrec(data: &[u8]) -> (r: MqttResult<PubRecPacket>)
    ensures
        match r {
            Ok(p) => spec_decode_packet_id(data@) == Ok::<u16, Fault>(p.packet_id),
            Err(e) => spec_decode_packet_id(data@) == Err::<u16, Fault>(e.fault()),
        },
{
    match decode_packet_id(data) {
        Ok(packet_id) => Ok(PubRecPacket { packet_id }),
        Err(_) => Err(invalid("PUBREC too short")),
    }
}

/// Decode a PUBREL body.
pub fn decode_pubrel(data: &[u8]) -> (r: MqttResult<PubRelPacket>)
    ensures
        match r {
            Ok(p) => spec_decode_packet_id(data@) == Ok::<u16, Fault>(p.packet_id),
            Err(e) => spec_decode_packet_id(data@) == Err::<u16, Fault>(e.fault()),
        },
{
    match decode_packet_id(data) {
        Ok(packet_id) => Ok(PubRelPacket { packet_id }),
        Err(_) => Err(invalid("PUBREL too short")),
    }
}

/// Decode a PUBCOMP body.
pub fn decode_pubcomp(data: &[u8]) -> (r: MqttResult<PubCompPacket>)
    ensures
        match r {
            Ok(p) => spec_decode_packet_id(data@) == Ok::<u16, Fault>(p.packet_id),
            Err(e) => spec_decode_packet_id(data@) == Err::<u16, Fault>(e.fault()),
        },
{
    match decode_packet_id(data) {
        Ok(packet_id) => Ok(PubCompPacket { packet_id }),
        Err(_) => Err(invalid("PUBCOMP too short")),
    }
}

/// Decode an UNSUBACK body.
pub fn decode_unsuback(data: &[u8]) -> (r: MqttResult<UnsubAckPacket>)
    ensures
        match r {
            Ok(p) => spec_decode_packet_id(data@) == Ok::<u16, Fault>(p.packet_id),
            Err(e) => spec_decode_packet_id(data@) == Err::<u16, Fault>(e.fault()),
        },
{
    match decode_packet_id(data) {
        Ok(packet_id) => Ok(UnsubAckPacket { packet_id }),
        Err(_) => Err(invalid("UNSUBACK too short")),
    }
}

/// Decode a SUBSCRIBE body.
pub fn decode_subscribe(data: &[u8]) -> (r: MqttResult<SubscribePacket>)
    ensures
        match r {
            Ok(p) => spec_decode_packet_id(data@) == Ok::<u16, Fault>(p.packet_id)
                && spec_decode_sub_filters(data@, 2, Seq::empty()) == Ok::<Seq<SubscribeFilterView>, Fault>(
                filters_view(p.filters@),
            ),
            Err(e) => match spec_decode_packet_id(data@) {
                Ok(_) => spec_decode_sub_filters(data@, 2, Seq::empty()) == Err::<Seq<SubscribeFilterView>, Fault>(e.fault()),
                Err(f) => f == e.fault(),
            },
        },
{
    if data.len() < 2 {
        return Err(invalid("SUBSCRIBE too short"));
    }
    let packet_id = read_u16_be(data[0], data[1]);
    assert(packet_id == be16(data@[0], data@[1]) as u16);
    let mut pos: usize = 2;
    let mut filters: Vec<SubscribeFilter> = Vec::new();
    assert(filters_view(filters@) =~= Seq::<SubscribeFilterView>::empty());

    while pos < data.len()
        invariant
            2 <= pos <= data.len(),
            spec_decode_sub_filters(data@, 2, Seq::empty()) == spec_decode_sub_filters(
                data@,
                pos as nat,
                filters_view(filters@),
            ),
        decreases data.len() - pos,
    {
        let (path, p1) = match string_at(data, pos) {
            Ok(x) => x,
            Err(e) => return Err(e),
        };
        if p1 >= data.len() {
            return Err(invalid("Missing QoS in SUBSCRIBE"));
        }
        let qos = match QoS::from_u8(data[p1] & 0x03) {
            Some(q) => q,
            None => return Err(invalid("Invalid QoS in SUBSCRIBE")),
        };
        let ghost before = filters_view(filters@);
        let f = SubscribeFilter { path, qos };
        filters.push(f);
        assert(filters_view(filters@) =~= before.push(f@));
        pos = p1 + 1;
    }

    Ok(SubscribePacket { packet_id, filters })
}

/// Decode a SUBACK body; bytes that name no return code are skipped.
pub fn decode_suback(data: &[u8]) -> (r: MqttResult<SubAckPacket>)
    ensures
        match r {
            Ok(p) => spec_decode_packet_id(data@) == Ok::<u16, Fault>(p.packet_id)
                && p.return_codes@ == spec_suback_codes(data@.subrange(2, data@.len() as int)),
            Err(e) => spec_decode_packet_id(data@) == Err::<u16, Fault>(e.fault()),
        },
{
    if data.len() < 2 {
        return Err(invalid("SUBACK too short"));
    }
    let packet_id = read_u16_be(data[0], data[1]);
    assert(packet_id == be16(data@[0], data@[1]) as u16);
    let ghost rest = data@.subrange(2, data@.len() as int);
    let mut return_codes: Vec<SubAckReturnCode> = Vec::new();
    let mut i: usize = 2;
    assert(rest.take(0) =~= Seq::<u8>::empty());
    while i < data.len()
        invariant
            2 <= i <= data.len(),
            rest == data@.subrange(2, data@.len() as int),
            return_codes@ == spec_suback_codes(rest.take(i - 2)),
        decreases data.len() - i,
    {
        proof {
            assert(rest.take(i - 1).drop_last() =~= rest.take(i - 2));
            assert(rest.take(i - 1).last() == data@[i as int]);
        }
        match SubAckReturnCode::from_u8(data[i]) {
            Some(c) => return_codes.push(c),
            None => {},
        }
        i = i + 1;
    }
    assert(rest.take(i - 2) =~= rest);
    Ok(SubAckPacket { packet_id, return_codes })
}

/// Decode an UNSUBSCRIBE body.
pub fn decode_unsubscribe(data: &[u8]) -> (r: MqttResult<UnsubscribePacket>)
    ensures
        match r {
            Ok(p) => spec_decode_packet_id(data@) == Ok::<u16, Fault>(p.packet_id)
                && spec_decode_unsub_filters(data@, 2, Seq::empty()) == Ok::<Seq<Seq<char>>, Fault>(
                strings_view(p.filters@),
            ),
            Err(e) => match spec_decode_packet_id(data@) {
                Ok(_) => spec_decode_unsub_filters(data@, 2, Seq::empty()) == Err::<Seq<Seq<char>>, Fault>(e.fault()),
                Err(f) => f == e.fault(),
            },
        },
{
    if data.len() < 2 {
        return Err(invalid("UNSUBSCRIBE too short"));
    }
    let packet_id = read_u16_be(data[0], data[1]);
    assert(packet_id == be16(data@[0], data@[1]) as u16);
    let mut pos: usize = 2;
    let mut filters: Vec<String> = Vec::new();
    assert(strings_view(filters@) =~= Seq::<Seq<char>>::empty());

    while pos < data.len()
        invariant
            2 <= pos <= data.len(),
            spec_decode_unsub_filters(data@, 2, Seq::empty()) == spec_decode_unsub_filters(
                data@,
                pos as nat,
                strings_view(filters@),
            ),
        decreases data.len() - pos,
    {
        let (topic, p1) = match string_at(data, pos) {
            Ok(x) => x,
            Err(e) => return Err(e),
        };
        let ghost before = strings_view(filters@);
        let ghost tv = topic@;
        filters.push(topic);
        assert(strings_view(filters@) =~= before.push(tv));
        pos = p1;
    }

    Ok(UnsubscribePacket { packet_id, filters })
}

/// Decode the body of a packet of type `t` with fixed-header byte `header`.
fn decode_body(t: PacketType, header: u8, data: &[u8]) -> (r: MqttResult<MqttPacketV3>)
    ensures
        match r {
            Ok(p) => spec_decode_v3_body(t, header, data@) == Ok::<PacketV3View, Fault>(p@),
            Err(e) => spec_decode_v3_body(t, header, data@) == Err::<PacketV3View, Fault>(e.fault()),
        },
{
    match t {
        PacketType::Connect => match decode_connect(data, header) {
            Ok(p) => Ok(MqttPacketV3::Connect(p)),
            Err(e) => Err(e),
        },
        PacketType::ConnAck => match decode_connack(data, header) {
            Ok(p) => Ok(MqttPacketV3::ConnAck(p)),
            Err(e) => Err(e),
        },
        PacketType::Publish => match decode_publish(data, header) {
            Ok(p) => Ok(MqttPacketV3::Publish(p)),
            Err(e) => Err(e),
        },
        PacketType::PubAck => match decode_puback(data) {
            Ok(p) => Ok(MqttPacketV3::PubAck(p)),
            Err(e) => Err(e),
        },
        PacketType::PubRec => match decode_pubrec(data) {
            Ok(p) => Ok(MqttPacketV3::PubRec(p)),
            Err(e) => Err(e),
        },
        PacketType::PubRel => match decode_pubrel(data) {
            Ok(p) => Ok(MqttPacketV3::PubRel(p)),
            Err(e) => Err(e),
        },
        PacketType::PubComp => match decode_pubcomp(data) {
            Ok(p) => Ok(MqttPacketV3::PubComp(p)),
            Err(e) => Err(e),
        },
        PacketType::Subscribe => match decode_subscribe(data) {
            Ok(p) => Ok(MqttPacketV3::Subscribe(p)),
            Err(e) => Err(e),
        },
        PacketType::SubAck => match decode_suback(data) {
            Ok(p) => Ok(MqttPacketV3::SubAck(p)),
            Err(e) => Err(e),
        },
        PacketType::Unsubscribe => match decode_unsubscribe(data) {
            Ok(p) => Ok(MqttPacketV3::Unsubscribe(p)),
            Err(e) => Err(e),
        },
        PacketType::UnsubAck => match decode_unsuback(data) {
            Ok(p) => Ok(MqttPacketV3::UnsubAck(p)),
            Err(e) => Err(e),
        },
        PacketType::PingReq => Ok(MqttPacketV3::PingReq(PingReqPacket)),
        PacketType::PingResp => Ok(MqttPacketV3::PingResp(PingRespPacket)),
        PacketType::Disconnect => Ok(MqttPacketV3::Disconnect(DisconnectPacket)),
        PacketType::Auth => Err(invalid("AUTH not supported in MQTT 3.1.1")),
    }
}

/// Decode a MQTT 3.1.1 packet from the front of a byte buffer: `Ok(None)`
/// while more bytes are needed, else the packet and the bytes it takes.
pub fn decode_packet(src: &BytesMut) -> (r: MqttResult<Option<(MqttPacketV3, usize)>>)
    ensures
        match r {
            Ok(Some((p, n))) => spec_decode_v3(buffer_bytes(*src)) == Ok::<Option<(PacketV3View, nat)>, Fault>(
                Some((p@, n as nat)),
            ),
            Ok(None) => spec_decode_v3(buffer_bytes(*src)) == Ok::<Option<(PacketV3View, nat)>, Fault>(None),
            Err(e) => spec_decode_v3(buffer_bytes(*src)) == Err::<Option<(PacketV3View, nat)>, Fault>(e.fault()),
        },
{
    let src = buffer_as_slice(src);
    if src.len() == 0 {
        return Ok(None);
    }

    let fixed_header = src[0];
    let packet_type = match PacketType::from_u8(fixed_header) {
        Some(t) => t,
        None => return Err(invalid("Unknown packet type")),
    };

    // Need at least fixed header byte + 1 remaining length byte
    if src.len() < 2 {
        return Ok(None);
    }

    let (remaining_len, len_bytes) = match decode_remaining_length(&src[1..src.len()]) {
        Ok(x) => x,
        Err(e) => return Err(e),
    };
    proof {
        crate::common::lemma_varint_decoded_bounds(src@.subrange(1, src@.len() as int));
    }

    let total_len = 1 + len_bytes + remaining_len;

    if total_len > MAX_PACKET_SIZE {
        return Err(MqttError::PacketTooLarge(total_len));
    }

    if src.len() < total_len {
        // Need more data
        return Ok(None);
    }

    let packet_data = &src[1 + len_bytes..total_len];
    match decode_body(packet_type, fixed_header, packet_data) {
        Ok(packet) => Ok(Some((packet, total_len))),
        Err(e) => Err(e),
    }
}

// ==================== decoding what was encoded ====================

/// A packet the encoder can write so that decoding gives it back: its
/// strings fit their 16-bit length prefixes, a will message fits its 16-bit
/// length, and a PUBLISH has a packet identifier exactly when its QoS is
/// above 0.
pub open spec fn v3_well_formed(p: PacketV3View) -> bool {
    match p {
        PacketV3View::Connect(c) => {
            &&& fits_u16_string(c.client_id)
            &&& (c.will matches Some(w) ==> fits_u16_string(w.topic) && w.message.len() < 65536)
            &&& (c.username matches Some(u) ==> fits_u16_string(u))
            &&& (c.password matches Some(pw) ==> fits_u16_string(pw))
        },
        PacketV3View::Publish(x) => fits_u16_string(x.topic) && ((x.qos == QoS::AtMostOnce) <==> (x.packet_id is None)),
        PacketV3View::Subscribe(_, fs) => forall|i: int| 0 <= i < fs.len() ==> fits_u16_string(#[trigger] fs[i].path),
        PacketV3View::Unsubscribe(_, fs) => forall|i: int| 0 <= i < fs.len() ==> fits_u16_string(#[trigger] fs[i]),
        _ => true,
    }
}

pub(crate) open spec fn flags_byte(c: bool, w: bool, q: u8, r: bool, pw: bool, un: bool) -> u8 {
    ((if c { 2int } else { 0int }) + (if w { 4 + q * 8 + (if r { 0x20int } else { 0int }) } else { 0int }) + (if pw {
        0x40int
    } else {
        0int
    }) + (if un { 0x80int } else { 0int })) as u8
}

pub(crate) proof fn lemma_flags_byte_bits(c: bool, w: bool, q: u8, r: bool, pw: bool, un: bool)
    requires
        q <= 2,
    ensures
        (flags_byte(c, w, q, r, pw, un) & 0x02 != 0) == c,
        (flags_byte(c, w, q, r, pw, un) & 0x04 != 0) == w,
        w ==> (flags_byte(c, w, q, r, pw, un) >> 3) & 0x03 == q,
        w ==> (flags_byte(c, w, q, r, pw, un) & 0x20 != 0) == r,
        (flags_byte(c, w, q, r, pw, un) & 0x40 != 0) == pw,
        (flags_byte(c, w, q, r, pw, un) & 0x80 != 0) == un,
{
    assert({
        let f = ((if c { 2int } else { 0int }) + (if w { 4 + q * 8 + (if r { 0x20int } else { 0int }) } else {
            0int
        }) + (if pw { 0x40int } else { 0int }) + (if un { 0x80int } else { 0int })) as u8;
        &&& (f & 0x02 != 0) == c
        &&& (f & 0x04 != 0) == w
        &&& w ==> (f >> 3) & 0x03 == q
        &&& w ==> (f & 0x20 != 0) == r
        &&& (f & 0x40 != 0) == pw
        &&& (f & 0x80 != 0) == un
    }) by (bit_vector)
        requires
            q <= 2,
    ;
}

pub(crate) proof fn lemma_publish_header_bits(q: u8, r: bool, d: bool)
    requires
        q <= 2,
    ensures
        ({
            let h = (0x30 + q * 2 + (if r { 1int } else { 0int }) + (if d { 8int } else { 0int })) as u8;
            &&& (h >> 1) & 0x03 == q
            &&& (h & 0x01 != 0) == r
            &&& h == 0x30 + (q * 2 + (if r { 1int } else { 0int }) + (if d { 8int } else { 0int }))
        }),
{
    assert({
        let h = (0x30 + q * 2 + (if r { 1int } else { 0int }) + (if d { 8int } else { 0int })) as u8;
        &&& (h >> 1) & 0x03 == q
        &&& (h & 0x01 != 0) == r
    }) by (bit_vector)
        requires
            q <= 2,
    ;
}

proof fn lemma_suback_codes_roundtrip(cs: Seq<SubAckReturnCode>)
    ensures
        spec_suback_codes(spec_suback_bytes(cs)) == cs,
    decreases cs.len(),
{
    if cs.len() > 0 {
        lemma_suback_codes_roundtrip(cs.drop_last());
        assert(spec_suback_bytes(cs).drop_last() =~= spec_suback_bytes(cs.drop_last()));
        assert(cs =~= cs.drop_last().push(cs.last()));
    } else {
        assert(spec_suback_bytes(cs) =~= Seq::<u8>::empty());
    }
}

proof fn lemma_sub_filters_roundtrip(pre: Seq<u8>, fs: Seq<SubscribeFilterView>, acc: Seq<SubscribeFilterView>)
    requires
        forall|i: int| 0 <= i < fs.len() ==> fits_u16_string(#[trigger] fs[i].path),
    ensures
        spec_decode_sub_filters(
            pre + concat_map(fs, |f: SubscribeFilterView| spec_sub_entry(f)),
            pre.len(),
            acc,
        ) == Ok::<Seq<SubscribeFilterView>, Fault>(acc + fs),
    decreases fs.len(),
{
    let f = |x: SubscribeFilterView| spec_sub_entry(x);
    let d = pre + concat_map(fs, f);
    if fs.len() == 0 {
        assert(d =~= pre);
        assert(acc + fs =~= acc);
    } else {
        let x = fs[0];
        let tail = concat_map(fs.drop_first(), f);
        assert(fits_u16_string(fs[0].path));
        assert(d =~= pre + spec_encode_string(x.path) + (seq![x.qos.spec_to_u8()] + tail));
        lemma_string_at_concat(pre, x.path, seq![x.qos.spec_to_u8()] + tail);
        let p1 = pre.len() + spec_encode_string(x.path).len();
        assert(d[p1 as int] == x.qos.spec_to_u8());
        assert(x.qos.spec_to_u8() & 0x03 == x.qos.spec_to_u8()) by {
            assert(0u8 & 0x03u8 == 0u8 && 1u8 & 0x03u8 == 1u8 && 2u8 & 0x03u8 == 2u8) by (bit_vector);
        }
        let pre2 = pre + spec_sub_entry(x);
        assert(d =~= pre2 + tail);
        assert forall|i: int| 0 <= i < fs.drop_first().len() implies fits_u16_string(
            #[trigger] fs.drop_first()[i].path,
        ) by {
            assert(fs.drop_first()[i] == fs[i + 1]);
        }
        lemma_sub_filters_roundtrip(pre2, fs.drop_first(), acc.push(x));
        assert(acc.push(x) + fs.drop_first() =~= acc + fs);
    }
}

proof fn lemma_unsub_filters_roundtrip(pre: Seq<u8>, fs: Seq<Seq<char>>, acc: Seq<Seq<char>>)
    requires
        forall|i: int| 0 <= i < fs.len() ==> fits_u16_string(#[trigger] fs[i]),
    ensures
        spec_decode_unsub_filters(pre + concat_map(fs, |f: Seq<char>| spec_encode_string(f)), pre.len(), acc)
            == Ok::<Seq<Seq<char>>, Fault>(acc + fs),
    decreases fs.len(),
{
    let f = |x: Seq<char>| spec_encode_string(x);
    let d = pre + concat_map(fs, f);
    if fs.len() == 0 {
        assert(d =~= pre);
        assert(acc + fs =~= acc);
    } else {
        let x = fs[0];
        let tail = concat_map(fs.drop_first(), f);
        assert(fits_u16_string(fs[0]));
        assert(d =~= pre + spec_encode_string(x) + tail);
        lemma_string_at_concat(pre, x, tail);
        let pre2 = pre + spec_encode_string(x);
        assert(d =~= pre2 + tail);
        assert forall|i: int| 0 <= i < fs.drop_first().len() implies fits_u16_string(
            #[trigger] fs.drop_first()[i],
        ) by {
            assert(fs.drop_first()[i] == fs[i + 1]);
        }
        lemma_unsub_filters_roundtrip(pre2, fs.drop_first(), acc.push(x));
        assert(acc.push(x) + fs.drop_first() =~= acc + fs);
    }
}

pub(crate) proof fn lemma_protocol_name_decodes(rest: Seq<u8>)
    ensures
        spec_string_at(seq![0x00u8, 0x04, 0x4D, 0x51, 0x54, 0x54] + rest, 0) matches Ok((_, p)) && p == 6,
{
    reveal(spec_string_at);
    let d = seq![0x00u8, 0x04, 0x4D, 0x51, 0x54, 0x54] + rest;
    assert(d.subrange(0, d.len() as int) =~= d);
    assert(d.subrange(2, 6) =~= seq![0x4Du8, 0x51, 0x54, 0x54]);
    let name = seq![0x4Du8, 0x51, 0x54, 0x54];
    assert(name.subrange(0, 0) =~= Seq::<u8>::empty());
    assert(vstd::utf8::partial_valid_utf8(name, 0));
    vstd::utf8::partial_valid_utf8_extend_ascii_block(name, 0, 4);
    assert(name.subrange(0, 4) =~= name);
}

proof fn lemma_opt_string_roundtrip(pre: Seq<u8>, s: Option<Seq<char>>, post: Seq<u8>, present: bool)
    requires
        present == (s is Some),
        s matches Some(v) ==> fits_u16_string(v),
    ensures
        spec_opt_string_at(pre + spec_opt_string(s) + post, pre.len(), present) == Ok::<(Option<Seq<char>>, nat), Fault>(
            (s, pre.len() + spec_opt_string(s).len()),
        ),
{
    if let Some(v) = s {
        lemma_string_at_concat(pre, v, post);
    }
}

proof fn lemma_will_roundtrip(pre: Seq<u8>, w: Option<WillView>, post: Seq<u8>, flags: u8)
    requires
        (flags & 0x04 != 0) == (w is Some),
        w matches Some(wv) ==> {
            &&& fits_u16_string(wv.topic)
            &&& wv.message.len() < 65536
            &&& spec_will_qos(flags) == wv.qos
            &&& (flags & 0x20 != 0) == wv.retain
        },
    ensures
        spec_decode_will(pre + spec_will_bytes(w) + post, pre.len(), flags) == Ok::<(Option<WillView>, nat), Fault>(
            (w, pre.len() + spec_will_bytes(w).len()),
        ),
{
    if let Some(wv) = w {
        let d = pre + spec_will_bytes(w) + post;
        let m16 = spec_u16_be(wv.message.len() as u16);
        assert(d =~= pre + spec_encode_string(wv.topic) + (m16 + wv.message + post));
        lemma_string_at_concat(pre, wv.topic, m16 + wv.message + post);
        let bt = pre + spec_encode_string(wv.topic);
        assert(d =~= bt + m16 + wv.message + post);
        lemma_binary_at_concat(bt, wv.message, post);
    } else {
        assert(pre + spec_will_bytes(w) + post =~= pre + post);
    }
}

#[verifier::spinoff_prover]
#[verifier::rlimit(60)]
proof fn lemma_connect_payload_roundtrip(c: ConnectView, b0: Seq<u8>)
    requires
        v3_well_formed(PacketV3View::Connect(c)),
        ({
            let flags = spec_connect_flags(c);
            &&& (flags & 0x02 != 0) == c.clean_session
            &&& (flags & 0x04 != 0) == (c.will is Some)
            &&& (c.will matches Some(wv) ==> spec_will_qos(flags) == wv.qos && (flags & 0x20 != 0) == wv.retain)
            &&& (flags & 0x40 != 0) == (c.password is Some)
            &&& (flags & 0x80 != 0) == (c.username is Some)
        }),
    ensures
        spec_decode_connect_payload(
            b0 + spec_encode_string(c.client_id) + spec_will_bytes(c.will) + spec_opt_string(c.username)
                + spec_opt_string(c.password),
            b0.len(),
            spec_connect_flags(c),
            c.keep_alive,
        ) == Ok::<ConnectView, Fault>(c),
{
    let flags = spec_connect_flags(c);
    let w = spec_will_bytes(c.will);
    let u = spec_opt_string(c.username);
    let pw = spec_opt_string(c.password);
    let body = b0 + spec_encode_string(c.client_id) + w + u + pw;
    assert(body =~= b0 + spec_encode_string(c.client_id) + (w + u + pw));
    lemma_string_at_concat(b0, c.client_id, w + u + pw);
    let b1 = b0 + spec_encode_string(c.client_id);
    assert(body =~= b1 + w + (u + pw));
    lemma_will_roundtrip(b1, c.will, u + pw, flags);
    let b2 = b1 + w;
    assert(body =~= b2 + u + pw);
    lemma_opt_string_roundtrip(b2, c.username, pw, flags & 0x80 != 0);
    let b3 = b2 + u;
    assert(body =~= b3 + pw + Seq::<u8>::empty());
    lemma_opt_string_roundtrip(b3, c.password, Seq::<u8>::empty(), flags & 0x40 != 0);
}

#[verifier::spinoff_prover]
#[verifier::rlimit(60)]
proof fn lemma_connect_body_roundtrip(c: ConnectView)
    requires
        v3_well_formed(PacketV3View::Connect(c)),
    ensures
        spec_decode_connect(spec_connect_body(c)) == Ok::<ConnectView, Fault>(c),
{
    let flags = spec_connect_flags(c);
    let (wq, wr) = match c.will {
        Some(w) => (w.qos.spec_to_u8(), w.retain),
        None => (0u8, false),
    };
    if let Some(wv) = c.will {
        QoS::lemma_spec_from_to(wv.qos);
    }
    assert(flags == flags_byte(c.clean_session, c.will is Some, wq, wr, c.password is Some, c.username is Some));
    lemma_flags_byte_bits(c.clean_session, c.will is Some, wq, wr, c.password is Some, c.username is Some);

    let head = seq![0x00u8, 0x04, 0x4D, 0x51, 0x54, 0x54, 0x04, flags];
    let b0 = head + spec_u16_be(c.keep_alive);
    let body = spec_connect_body(c);
    assert(body =~= b0 + spec_encode_string(c.client_id) + spec_will_bytes(c.will) + spec_opt_string(c.username)
        + spec_opt_string(c.password));
    assert(body =~= seq![0x00u8, 0x04, 0x4D, 0x51, 0x54, 0x54] + body.subrange(6, body.len() as int));
    lemma_protocol_name_decodes(body.subrange(6, body.len() as int));
    assert(body[6] == 4);
    assert(body[7] == flags);
    lemma_u16_be_roundtrip(c.keep_alive);
    assert(be16(body[8], body[9]) as u16 == c.keep_alive);
    lemma_connect_payload_roundtrip(c, b0);
}

/// The first byte of an encoded packet names its type.
pub open spec fn spec_v3_type(p: PacketV3View) -> PacketType {
    match p {
        PacketV3View::Connect(_) => PacketType::Connect,
        PacketV3View::ConnAck(_) => PacketType::ConnAck,
        PacketV3View::Publish(_) => PacketType::Publish,
        PacketV3View::PubAck(_) => PacketType::PubAck,
        PacketV3View::PubRec(_) => PacketType::PubRec,
        PacketV3View::PubRel(_) => PacketType::PubRel,
        PacketV3View::PubComp(_) => PacketType::PubComp,
        PacketV3View::Subscribe(_, _) => PacketType::Subscribe,
        PacketV3View::SubAck(_, _) => PacketType::SubAck,
        PacketV3View::Unsubscribe(_, _) => PacketType::Unsubscribe,
        PacketV3View::UnsubAck(_) => PacketType::UnsubAck,
        PacketV3View::PingReq => PacketType::PingReq,
        PacketV3View::PingResp => PacketType::PingResp,
        PacketV3View::Disconnect => PacketType::Disconnect,
    }
}

pub(crate) proof fn lemma_v3_first_byte(p: PacketV3View)
    ensures
        PacketType::spec_from_u8(spec_v3_first_byte(p)) == Some(spec_v3_type(p)),
{
    match p {
        PacketV3View::Publish(x) => {
            let d = spec_publish_has_id(x);
            lemma_publish_header_bits(x.qos.spec_to_u8(), x.retain, d);
            crate::common::lemma_packet_type_roundtrip(
                PacketType::Publish,
                (x.qos.spec_to_u8() * 2 + (if x.retain { 1int } else { 0int }) + (if d { 8int } else { 0int })) as u8,
            );
        },
        _ => {
            crate::common::lemma_packet_type_roundtrip(spec_v3_type(p), (spec_v3_first_byte(p) % 16) as u8);
        },
    }
}

proof fn lemma_publish_body_roundtrip(x: PublishView)
    requires
        v3_well_formed(PacketV3View::Publish(x)),
    ensures
        spec_decode_publish(spec_publish_body(x), spec_publish_header(x)) == Ok::<PublishView, Fault>(x),
{
    let body = spec_publish_body(x);
    let d = spec_publish_has_id(x);
    lemma_publish_header_bits(x.qos.spec_to_u8(), x.retain, d);
    QoS::lemma_spec_from_to(x.qos);
    let mid = if d { spec_u16_be(x.packet_id.unwrap()) } else { Seq::<u8>::empty() };
    assert(body =~= Seq::<u8>::empty() + spec_encode_string(x.topic) + (mid + x.payload));
    lemma_string_at_concat(Seq::<u8>::empty(), x.topic, mid + x.payload);
    let k = spec_encode_string(x.topic).len();
    if d {
        lemma_u16_be_roundtrip(x.packet_id.unwrap());
        assert(body[k as int] == mid[0]);
        assert(body[k as int + 1] == mid[1]);
        assert(body.subrange(k as int + 2, body.len() as int) =~= x.payload);
    } else {
        assert(body.subrange(k as int, body.len() as int) =~= x.payload);
    }
}

proof fn lemma_v3_body_roundtrip(p: PacketV3View)
    requires
        v3_well_formed(p),
    ensures
        spec_decode_v3_body(spec_v3_type(p), spec_v3_first_byte(p), spec_v3_body(p)) == Ok::<PacketV3View, Fault>(p),
{
    let body = spec_v3_body(p);
    match p {
        PacketV3View::Connect(c) => {
            lemma_connect_body_roundtrip(c);
        },
        PacketV3View::ConnAck(a) => {
            assert(0u8 & 0x01u8 == 0u8 && 1u8 & 0x01u8 == 1u8) by (bit_vector);
            ConnectReturnCode::lemma_spec_from_to(a.return_code);
        },
        PacketV3View::Publish(x) => {
            lemma_publish_body_roundtrip(x);
        },
        PacketV3View::PubAck(id) => lemma_u16_be_roundtrip(id),
        PacketV3View::PubRec(id) => lemma_u16_be_roundtrip(id),
        PacketV3View::PubRel(id) => lemma_u16_be_roundtrip(id),
        PacketV3View::PubComp(id) => lemma_u16_be_roundtrip(id),
        PacketV3View::UnsubAck(id) => lemma_u16_be_roundtrip(id),
        PacketV3View::Subscribe(id, fs) => {
            lemma_u16_be_roundtrip(id);
            lemma_sub_filters_roundtrip(spec_u16_be(id), fs, Seq::empty());
            assert(Seq::<SubscribeFilterView>::empty() + fs =~= fs);
        },
        PacketV3View::SubAck(id, cs) => {
            lemma_u16_be_roundtrip(id);
            assert(body.subrange(2, body.len() as int) =~= spec_suback_bytes(cs));
            lemma_suback_codes_roundtrip(cs);
        },
        PacketV3View::Unsubscribe(id, fs) => {
            lemma_u16_be_roundtrip(id);
            lemma_unsub_filters_roundtrip(spec_u16_be(id), fs, Seq::empty());
            assert(Seq::<Seq<char>>::empty() + fs =~= fs);
        },
        _ => {},
    }
}

/// Decoding the bytes the encoder writes for a well-formed packet of at most
/// `MAX_PACKET_SIZE` bytes gives that packet back and consumes exactly its
/// bytes, whatever follows it in the buffer.
pub proof fn lemma_v3_roundtrip(p: PacketV3View, rest: Seq<u8>)
    requires
        v3_well_formed(p),
        spec_encode_v3(p).len() <= MAX_PACKET_SIZE,
    ensures
        spec_decode_v3(spec_encode_v3(p) + rest) == Ok::<Option<(PacketV3View, nat)>, Fault>(
            Some((p, spec_encode_v3(p).len())),
        ),
{
    let first = spec_v3_first_byte(p);
    let body = spec_v3_body(p);
    let enc = spec_encode_v3(p);
    let buf = enc + rest;
    crate::common::lemma_varint_roundtrip(body.len(), body + rest);
    let lb = crate::common::spec_encode_varint(body.len()).len();
    assert(buf[0] == first);
    assert(buf.subrange(1, buf.len() as int) =~= crate::common::spec_encode_varint(body.len()) + (body + rest));
    assert(enc.len() == 1 + lb + body.len());
    assert(buf.subrange(1 + lb as int, enc.len() as int) =~= body);
    lemma_v3_first_byte(p);
    lemma_v3_body_roundtrip(p);
}

} // verus!
