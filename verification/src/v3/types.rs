//! MQTT 3.1.1 packet type definitions.

use vstd::prelude::*;
use crate::common::QoS;

verus! {

/// Unique packet identifier (used for QoS 1/2 flows).
pub type PacketId = u16;

/// CONNECT packet.
#[derive(Debug, Clone)]
pub struct ConnectPacket {
    /// Client identifier (unique per client).
    pub client_id: String,
    /// Whether to clean session on connect.
    pub clean_session: bool,
    /// Keep alive interval in seconds.
    pub keep_alive: u16,
    /// Optional will message.
    pub will: Option<Will>,
    /// Optional username.
    pub username: Option<String>,
    /// Optional password.
    pub password: Option<String>,
}

/// Will message carried by CONNECT.
#[derive(Debug, Clone)]
pub struct Will {
    /// Will topic.
    pub topic: String,
    /// Will message payload.
    pub message: Vec<u8>,
    /// Will QoS.
    pub qos: QoS,
    /// Will retain flag.
    pub retain: bool,
}

/// CONNACK return code.
#[derive(Debug, Clone, Copy, PartialEq, Eq, Structural)]
pub enum ConnectReturnCode {
    Accepted,
    UnacceptableProtocolVersion,
    IdentifierRejected,
    ServerUnavailable,
    BadUsernameOrPassword,
    NotAuthorized,
}

impl ConnectReturnCode {
    pub open spec fn spec_to_u8(self) -> u8 {
        match self {
            ConnectReturnCode::Accepted => 0,
            ConnectReturnCode::UnacceptableProtocolVersion => 1,
            ConnectReturnCode::IdentifierRejected => 2,
            ConnectReturnCode::ServerUnavailable => 3,
            ConnectReturnCode::BadUsernameOrPassword => 4,
            ConnectReturnCode::NotAuthorized => 5,
        }
    }

    pub open spec fn spec_from_u8(v: u8) -> Option<ConnectReturnCode> {
        if v == 0 {
            Some(ConnectReturnCode::Accepted)
        } else if v == 1 {
            Some(ConnectReturnCode::UnacceptableProtocolVersion)
        } else if v == 2 {
            Some(ConnectReturnCode::IdentifierRejected)
        } else if v == 3 {
            Some(ConnectReturnCode::ServerUnavailable)
        } else if v == 4 {
            Some(ConnectReturnCode::BadUsernameOrPassword)
        } else if v == 5 {
            Some(ConnectReturnCode::NotAuthorized)
        } else {
            None
        }
    }

    /// The return codes have their MQTT 3.1.1 wire bytes (0 accepted, 1
    /// unacceptable protocol version, 2 identifier rejected, 3 server
    /// unavailable, 4 bad user name or password, 5 not authorized), each byte
    /// names its code back, and no other byte names a code.
    pub proof fn lemma_wire_bytes(v: u8)
        ensures
            ConnectReturnCode::Accepted.spec_to_u8() == 0,
            ConnectReturnCode::spec_from_u8(0) == Some(ConnectReturnCode::Accepted),
            ConnectReturnCode::UnacceptableProtocolVersion.spec_to_u8() == 1,
            ConnectReturnCode::spec_from_u8(1) == Some(ConnectReturnCode::UnacceptableProtocolVersion),
            ConnectReturnCode::IdentifierRejected.spec_to_u8() == 2,
            ConnectReturnCode::spec_from_u8(2) == Some(ConnectReturnCode::IdentifierRejected),
            ConnectReturnCode::ServerUnavailable.spec_to_u8() == 3,
            ConnectReturnCode::spec_from_u8(3) == Some(ConnectReturnCode::ServerUnavailable),
            ConnectReturnCode::BadUsernameOrPassword.spec_to_u8() == 4,
            ConnectReturnCode::spec_from_u8(4) == Some(ConnectReturnCode::BadUsernameOrPassword),
            ConnectReturnCode::NotAuthorized.spec_to_u8() == 5,
            ConnectReturnCode::spec_from_u8(5) == Some(ConnectReturnCode::NotAuthorized),
            Self::spec_from_u8(v) matches Some(c) ==> c.spec_to_u8() == v,
            v > 5 ==> Self::spec_from_u8(v) is None,
    {
    }

    /// A return code's byte names it again.
    pub proof fn lemma_spec_from_to(c: ConnectReturnCode)
        ensures
            Self::spec_from_u8(c.spec_to_u8()) == Some(c),
    {
    }

    pub fn from_u8(v: u8) -> (r: Option<Self>)
        ensures
            r == Self::spec_from_u8(v),
    {
        match v {
            0 => Some(ConnectReturnCode::Accepted),
            1 => Some(ConnectReturnCode::UnacceptableProtocolVersion),
            2 => Some(ConnectReturnCode::IdentifierRejected),
            3 => Some(ConnectReturnCode::ServerUnavailable),
            4 => Some(ConnectReturnCode::BadUsernameOrPassword),
            5 => Some(ConnectReturnCode::NotAuthorized),
            _ => None,
        }
    }

    pub fn to_u8(self) -> (v: u8)
        ensures
            v == self.spec_to_u8(),
    {
        match self {
            ConnectReturnCode::Accepted => 0,
            ConnectReturnCode::UnacceptableProtocolVersion => 1,
            ConnectReturnCode::IdentifierRejected => 2,
            ConnectReturnCode::ServerUnavailable => 3,
            ConnectReturnCode::BadUsernameOrPassword => 4,
            ConnectReturnCode::NotAuthorized => 5,
        }
    }
}

/// CONNACK packet.
#[derive(Debug, Clone, Copy, PartialEq, Eq, Structural)]
pub struct ConnAckPacket {
    /// Whether the server has stored the session.
    pub session_present: bool,
    /// Return code.
    pub return_code: ConnectReturnCode,
}

/// PUBLISH packet.
#[derive(Debug, Clone)]
pub struct PublishPacket {
    /// Topic name.
    pub topic: String,
    /// Payload.
    pub payload: Vec<u8>,
    /// QoS level.
    pub qos: QoS,
    /// Retain flag.
    pub retain: bool,
    /// Packet identifier (only for QoS > 0).
    pub packet_id: Option<PacketId>,
}

#[derive(Debug, Clone, Copy, PartialEq, Eq, Structural)]
pub struct PubAckPacket {
    pub packet_id: PacketId,
}

#[derive(Debug, Clone, Copy, PartialEq, Eq, Structural)]
pub struct PubRecPacket {
    pub packet_id: PacketId,
}

#[derive(Debug, Clone, Copy, PartialEq, Eq, Structural)]
pub struct PubRelPacket {
    pub packet_id: PacketId,
}

#[derive(Debug, Clone, Copy, PartialEq, Eq, Structural)]
pub struct PubCompPacket {
    pub packet_id: PacketId,
}

/// SUBSCRIBE packet.
#[derive(Debug, Clone)]
pub struct SubscribePacket {
    pub packet_id: PacketId,
    pub filters: Vec<SubscribeFilter>,
}

#[derive(Debug, Clone)]
pub struct SubscribeFilter {
    pub path: String,
    pub qos: QoS,
}

/// SUBACK return code.
#[derive(Debug, Clone, Copy, PartialEq, Eq, Structural)]
pub enum SubAckReturnCode {
    SuccessQoS0,
    SuccessQoS1,
    SuccessQoS2,
    Failure,
}

impl SubAckReturnCode {
    pub open spec fn spec_to_u8(self) -> u8 {
        match self {
            SubAckReturnCode::SuccessQoS0 => 0,
            SubAckReturnCode::SuccessQoS1 => 1,
            SubAckReturnCode::SuccessQoS2 => 2,
            SubAckReturnCode::Failure => 0x80,
        }
    }

    pub open spec fn spec_from_u8(v: u8) -> Option<SubAckReturnCode> {
        if v == 0 {
            Some(SubAckReturnCode::SuccessQoS0)
        } else if v == 1 {
            Some(SubAckReturnCode::SuccessQoS1)
        } else if v == 2 {
            Some(SubAckReturnCode::SuccessQoS2)
        } else if v == 0x80 {
            Some(SubAckReturnCode::Failure)
        } else {
            None
        }
    }

    pub fn from_u8(v: u8) -> (r: Option<Self>)
        ensures
            r == Self::spec_from_u8(v),
    {
        match v {
            0 => Some(SubAckReturnCode::SuccessQoS0),
            1 => Some(SubAckReturnCode::SuccessQoS1),
            2 => Some(SubAckReturnCode::SuccessQoS2),
            0x80 => Some(SubAckReturnCode::Failure),
            _ => None,
        }
    }

    /// The wire byte of this return code.
    pub fn to_u8(self) -> (v: u8)
        ensures
            v == self.spec_to_u8(),
    {
        match self {
            SubAckReturnCode::SuccessQoS0 => 0,
            SubAckReturnCode::SuccessQoS1 => 1,
            SubAckReturnCode::SuccessQoS2 => 2,
            SubAckReturnCode::Failure => 0x80,
        }
    }
}

#[derive(Debug, Clone)]
pub struct SubAckPacket {
    pub packet_id: PacketId,
    pub return_codes: Vec<SubAckReturnCode>,
}

#[derive(Debug, Clone)]
pub struct UnsubscribePacket {
    pub packet_id: PacketId,
    pub filters: Vec<String>,
}

#[derive(Debug, Clone, Copy, PartialEq, Eq, Structural)]
pub struct UnsubAckPacket {
    pub packet_id: PacketId,
}

#[derive(Debug, Clone, Copy, PartialEq, Eq, Structural)]
pub struct PingReqPacket;

#[derive(Debug, Clone, Copy, PartialEq, Eq, Structural)]
pub struct PingRespPacket;

#[derive(Debug, Clone, Copy, PartialEq, Eq, Structural)]
pub struct DisconnectPacket;

/// All MQTT 3.1.1 packets.
#[derive(Debug, Clone)]
pub enum MqttPacketV3 {
    Connect(ConnectPacket),
    ConnAck(ConnAckPacket),
    Publish(PublishPacket),
    PubAck(PubAckPacket),
    PubRec(PubRecPacket),
    PubRel(PubRelPacket),
    PubComp(PubCompPacket),
    Subscribe(SubscribePacket),
    SubAck(SubAckPacket),
    Unsubscribe(UnsubscribePacket),
    UnsubAck(UnsubAckPacket),
    PingReq(PingReqPacket),
    PingResp(PingRespPacket),
    Disconnect(DisconnectPacket),
}

// ---------------------------------------------------------------------------
// Mathematical views of the packets
// ---------------------------------------------------------------------------

pub struct WillView {
    pub topic: Seq<char>,
    pub message: Seq<u8>,
    pub qos: QoS,
    pub retain: bool,
}

pub struct ConnectView {
    pub client_id: Seq<char>,
    pub clean_session: bool,
    pub keep_alive: u16,
    pub will: Option<WillView>,
    pub username: Option<Seq<char>>,
    pub password: Option<Seq<char>>,
}

pub struct PublishView {
    pub topic: Seq<char>,
    pub payload: Seq<u8>,
    pub qos: QoS,
    pub retain: bool,
    pub packet_id: Option<u16>,
}

pub struct SubscribeFilterView {
    pub path: Seq<char>,
    pub qos: QoS,
}

/// What an MQTT 3.1.1 packet says.
pub enum PacketV3View {
    Connect(ConnectView),
    ConnAck(ConnAckPacket),
    Publish(PublishView),
    PubAck(u16),
    PubRec(u16),
    PubRel(u16),
    PubComp(u16),
    Subscribe(u16, Seq<SubscribeFilterView>),
    SubAck(u16, Seq<SubAckReturnCode>),
    Unsubscribe(u16, Seq<Seq<char>>),
    UnsubAck(u16),
    PingReq,
    PingResp,
    Disconnect,
}

pub open spec fn opt_string_view(s: Option<String>) -> Option<Seq<char>> {
    match s {
        Some(v) => Some(v@),
        None => None,
    }
}

impl View for Will {
    type V = WillView;

    open spec fn view(&self) -> WillView {
        WillView { topic: self.topic@, message: self.message@, qos: self.qos, retain: self.retain }
    }
}

impl View for ConnectPacket {
    type V = ConnectView;

    open spec fn view(&self) -> ConnectView {
        ConnectView {
            client_id: self.client_id@,
            clean_session: self.clean_session,
            keep_alive: self.keep_alive,
            will: match self.will {
                Some(w) => Some(w@),
                None => None,
            },
            username: opt_string_view(self.username),
            password: opt_string_view(self.password),
        }
    }
}

impl View for PublishPacket {
    type V = PublishView;

    open spec fn view(&self) -> PublishView {
        PublishView {
            topic: self.topic@,
            payload: self.payload@,
            qos: self.qos,
            retain: self.retain,
            packet_id: self.packet_id,
        }
    }
}

impl View for SubscribeFilter {
    type V = SubscribeFilterView;

    open spec fn view(&self) -> SubscribeFilterView {
        SubscribeFilterView { path: self.path@, qos: self.qos }
    }
}

pub open spec fn filters_view(v: Seq<SubscribeFilter>) -> Seq<SubscribeFilterView> {
    v.map_values(|f: SubscribeFilter| f@)
}

pub open spec fn strings_view(v: Seq<String>) -> Seq<Seq<char>> {
    v.map_values(|s: String| s@)
}

impl View for MqttPacketV3 {
    type V = PacketV3View;

    open spec fn view(&self) -> PacketV3View {
        match self {
            MqttPacketV3::Connect(p) => PacketV3View::Connect(p@),
            MqttPacketV3::ConnAck(p) => PacketV3View::ConnAck(*p),
            MqttPacketV3::Publish(p) => PacketV3View::Publish(p@),
            MqttPacketV3::PubAck(p) => PacketV3View::PubAck(p.packet_id),
            MqttPacketV3::PubRec(p) => PacketV3View::PubRec(p.packet_id),
            MqttPacketV3::PubRel(p) => PacketV3View::PubRel(p.packet_id),
            MqttPacketV3::PubComp(p) => PacketV3View::PubComp(p.packet_id),
            MqttPacketV3::Subscribe(p) => PacketV3View::Subscribe(p.packet_id, filters_view(p.filters@)),
            MqttPacketV3::SubAck(p) => PacketV3View::SubAck(p.packet_id, p.return_codes@),
            MqttPacketV3::Unsubscribe(p) => PacketV3View::Unsubscribe(p.packet_id, strings_view(p.filters@)),
            MqttPacketV3::UnsubAck(p) => PacketV3View::UnsubAck(p.packet_id),
            MqttPacketV3::PingReq(_) => PacketV3View::PingReq,
            MqttPacketV3::PingResp(_) => PacketV3View::PingResp,
            MqttPacketV3::Disconnect(_) => PacketV3View::Disconnect,
        }
    }
}

} // verus!
