//! MQTT 5.0 packet types.

use vstd::prelude::*;
use crate::common::QoS;
use crate::v5::properties::{Properties, PropertyValueView};

verus! {

/// Packet ID type
pub type PacketId = u16;

/// MQTT 5.0 reason codes. The same byte value may mean different things in
/// different packets; each variant has its own wire byte (`to_u8`).
#[derive(Debug, Clone, Copy, PartialEq, Eq, Structural)]
pub enum ReasonCode {
    Success,
    GrantedQoS1,
    GrantedQoS2,
    DisconnectWithWillMessage,
    NoMatchingSubscribers,
    NoSubscriptionExisted,
    ContinueAuthentication,
    ReAuthenticate,
    UnspecifiedError,
    MalformedPacket,
    ProtocolError,
    ImplementationSpecificError,
    UnsupportedProtocolVersion,
    ClientIdentifierNotValid,
    BadUserNameOrPassword,
    NotAuthorized,
    ServerUnavailable,
    ServerBusy,
    Banned,
    ServerShuttingDown,
    BadAuthenticationMethod,
    KeepAliveTimeout,
    SessionTakenOver,
    TopicFilterInvalid,
    TopicNameInvalid,
    PacketIdentifierInUse,
    PacketIdentifierNotFound,
    ReceiveMaximumExceeded,
    TopicAliasInvalid,
    PacketTooLarge,
    MessageRateTooHigh,
    QuotaExceeded,
    AdministrativeAction,
    PayloadFormatInvalid,
    RetainNotSupported,
    QoSNotSupported,
    UseAnotherServer,
    ServerMoved,
    SharedSubscriptionsNotSupported,
    ConnectionRateExceeded,
    MaximumConnectTime,
    SubscriptionIdentifiersNotSupported,
    WildcardSubscriptionsNotSupported,
}

impl ReasonCode {
    /// Reason code 0x00 as the normal-disconnection code of DISCONNECT.
    pub fn normal_disconnection() -> (r: Self)
        ensures
            r == ReasonCode::Success,
    {
        ReasonCode::Success
    }

    /// Reason code 0x00 as the granted-QoS-0 code of SUBACK.
    pub fn granted_qos0() -> (r: Self)
        ensures
            r == ReasonCode::Success,
    {
        ReasonCode::Success
    }

    /// The wire byte of a reason code.
    pub open spec fn spec_to_u8(self) -> u8 {
        match self {
            ReasonCode::Success => 0,
            ReasonCode::GrantedQoS1 => 1,
            ReasonCode::GrantedQoS2 => 2,
            ReasonCode::DisconnectWithWillMessage => 4,
            ReasonCode::NoMatchingSubscribers => 16,
            ReasonCode::NoSubscriptionExisted => 17,
            ReasonCode::ContinueAuthentication => 24,
            ReasonCode::ReAuthenticate => 25,
            ReasonCode::UnspecifiedError => 128,
            ReasonCode::MalformedPacket => 129,
            ReasonCode::ProtocolError => 130,
            ReasonCode::ImplementationSpecificError => 131,
            ReasonCode::UnsupportedProtocolVersion => 132,
            ReasonCode::ClientIdentifierNotValid => 133,
            ReasonCode::BadUserNameOrPassword => 134,
            ReasonCode::NotAuthorized => 135,
            ReasonCode::ServerUnavailable => 136,
            ReasonCode::ServerBusy => 137,
            ReasonCode::Banned => 138,
            ReasonCode::ServerShuttingDown => 139,
            ReasonCode::BadAuthenticationMethod => 140,
            ReasonCode::KeepAliveTimeout => 141,
            ReasonCode::SessionTakenOver => 142,
            ReasonCode::TopicFilterInvalid => 143,
            ReasonCode::TopicNameInvalid => 144,
            ReasonCode::PacketIdentifierInUse => 145,
            ReasonCode::PacketIdentifierNotFound => 146,
            ReasonCode::ReceiveMaximumExceeded => 147,
            ReasonCode::TopicAliasInvalid => 148,
            ReasonCode::PacketTooLarge => 149,
            ReasonCode::MessageRateTooHigh => 150,
            ReasonCode::QuotaExceeded => 151,
            ReasonCode::AdministrativeAction => 152,
            ReasonCode::PayloadFormatInvalid => 153,
            ReasonCode::RetainNotSupported => 154,
            ReasonCode::QoSNotSupported => 155,
            ReasonCode::UseAnotherServer => 156,
            ReasonCode::ServerMoved => 157,
            ReasonCode::SharedSubscriptionsNotSupported => 158,
            ReasonCode::ConnectionRateExceeded => 159,
            ReasonCode::MaximumConnectTime => 160,
            ReasonCode::SubscriptionIdentifiersNotSupported => 161,
            ReasonCode::WildcardSubscriptionsNotSupported => 162,
        }
    }

    /// The reason code a wire byte names, if any.
    pub open spec fn spec_from_u8(v: u8) -> Option<ReasonCode> {
        if v == 0 {
            Some(ReasonCode::Success)
        } else if v == 1 {
            Some(ReasonCode::GrantedQoS1)
        } else if v == 2 {
            Some(ReasonCode::GrantedQoS2)
        } else if v == 4 {
            Some(ReasonCode::DisconnectWithWillMessage)
        } else if v == 16 {
            Some(ReasonCode::NoMatchingSubscribers)
        } else if v == 17 {
            Some(ReasonCode::NoSubscriptionExisted)
        } else if v == 24 {
            Some(ReasonCode::ContinueAuthentication)
        } else if v == 25 {
            Some(ReasonCode::ReAuthenticate)
        } else if v == 128 {
            Some(ReasonCode::UnspecifiedError)
        } else if v == 129 {
            Some(ReasonCode::MalformedPacket)
        } else if v == 130 {
            Some(ReasonCode::ProtocolError)
        } else if v == 131 {
            Some(ReasonCode::ImplementationSpecificError)
        } else if v == 132 {
            Some(ReasonCode::UnsupportedProtocolVersion)
        } else if v == 133 {
            Some(ReasonCode::ClientIdentifierNotValid)
        } else if v == 134 {
            Some(ReasonCode::BadUserNameOrPassword)
        } else if v == 135 {
            Some(ReasonCode::NotAuthorized)
        } else if v == 136 {
            Some(ReasonCode::ServerUnavailable)
        } else if v == 137 {
            Some(ReasonCode::ServerBusy)
        } else if v == 138 {
            Some(ReasonCode::Banned)
        } else if v == 139 {
            Some(ReasonCode::ServerShuttingDown)
        } else if v == 140 {
            Some(ReasonCode::BadAuthenticationMethod)
        } else if v == 141 {
            Some(ReasonCode::KeepAliveTimeout)
        } else if v == 142 {
            Some(ReasonCode::SessionTakenOver)
        } else if v == 143 {
            Some(ReasonCode::TopicFilterInvalid)
        } else if v == 144 {
            Some(ReasonCode::TopicNameInvalid)
        } else if v == 145 {
            Some(ReasonCode::PacketIdentifierInUse)
        } else if v == 146 {
            Some(ReasonCode::PacketIdentifierNotFound)
        } else if v == 147 {
            Some(ReasonCode::ReceiveMaximumExceeded)
        } else if v == 148 {
            Some(ReasonCode::TopicAliasInvalid)
        } else if v == 149 {
            Some(ReasonCode::PacketTooLarge)
        } else if v == 150 {
            Some(ReasonCode::MessageRateTooHigh)
        } else if v == 151 {
            Some(ReasonCode::QuotaExceeded)
        } else if v == 152 {
            Some(ReasonCode::AdministrativeAction)
        } else if v == 153 {
            Some(ReasonCode::PayloadFormatInvalid)
        } else if v == 154 {
            Some(ReasonCode::RetainNotSupported)
        } else if v == 155 {
            Some(ReasonCode::QoSNotSupported)
        } else if v == 156 {
            Some(ReasonCode::UseAnotherServer)
        } else if v == 157 {
            Some(ReasonCode::ServerMoved)
        } else if v == 158 {
            Some(ReasonCode::SharedSubscriptionsNotSupported)
        } else if v == 159 {
            Some(ReasonCode::ConnectionRateExceeded)
        } else if v == 160 {
            Some(ReasonCode::MaximumConnectTime)
        } else if v == 161 {
            Some(ReasonCode::SubscriptionIdentifiersNotSupported)
        } else if v == 162 {
            Some(ReasonCode::WildcardSubscriptionsNotSupported)
        } else {
            None
        }
    }

    /// A reason code's byte names it again.
    pub proof fn lemma_spec_from_to(c: ReasonCode)
        ensures
            Self::spec_from_u8(c.spec_to_u8()) == Some(c),
    {
    }

    /// The reason code with the given wire byte, if there is one.
    pub fn from_u8(v: u8) -> (r: Option<Self>)
        ensures
            r == Self::spec_from_u8(v),
    {
        match v {
            0 => Some(ReasonCode::Success),
            1 => Some(ReasonCode::GrantedQoS1),
            2 => Some(ReasonCode::GrantedQoS2),
            4 => Some(ReasonCode::DisconnectWithWillMessage),
            16 => Some(ReasonCode::NoMatchingSubscribers),
            17 => Some(ReasonCode::NoSubscriptionExisted),
            24 => Some(ReasonCode::ContinueAuthentication),
            25 => Some(ReasonCode::ReAuthenticate),
            128 => Some(ReasonCode::UnspecifiedError),
            129 => Some(ReasonCode::MalformedPacket),
            130 => Some(ReasonCode::ProtocolError),
            131 => Some(ReasonCode::ImplementationSpecificError),
            132 => Some(ReasonCode::UnsupportedProtocolVersion),
            133 => Some(ReasonCode::ClientIdentifierNotValid),
            134 => Some(ReasonCode::BadUserNameOrPassword),
            135 => Some(ReasonCode::NotAuthorized),
            136 => Some(ReasonCode::ServerUnavailable),
            137 => Some(ReasonCode::ServerBusy),
            138 => Some(ReasonCode::Banned),
            139 => Some(ReasonCode::ServerShuttingDown),
            140 => Some(ReasonCode::BadAuthenticationMethod),
            141 => Some(ReasonCode::KeepAliveTimeout),
            142 => Some(ReasonCode::SessionTakenOver),
            143 => Some(ReasonCode::TopicFilterInvalid),
            144 => Some(ReasonCode::TopicNameInvalid),
            145 => Some(ReasonCode::PacketIdentifierInUse),
            146 => Some(ReasonCode::PacketIdentifierNotFound),
            147 => Some(ReasonCode::ReceiveMaximumExceeded),
            148 => Some(ReasonCode::TopicAliasInvalid),
            149 => Some(ReasonCode::PacketTooLarge),
            150 => Some(ReasonCode::MessageRateTooHigh),
            151 => Some(ReasonCode::QuotaExceeded),
            152 => Some(ReasonCode::AdministrativeAction),
            153 => Some(ReasonCode::PayloadFormatInvalid),
            154 => Some(ReasonCode::RetainNotSupported),
            155 => Some(ReasonCode::QoSNotSupported),
            156 => Some(ReasonCode::UseAnotherServer),
            157 => Some(ReasonCode::ServerMoved),
            158 => Some(ReasonCode::SharedSubscriptionsNotSupported),
            159 => Some(ReasonCode::ConnectionRateExceeded),
            160 => Some(ReasonCode::MaximumConnectTime),
            161 => Some(ReasonCode::SubscriptionIdentifiersNotSupported),
            162 => Some(ReasonCode::WildcardSubscriptionsNotSupported),
            _ => None,
        }
    }

    /// The wire byte of this reason code.
    pub fn to_u8(self) -> (v: u8)
        ensures
            v == self.spec_to_u8(),
    {
        match self {
            ReasonCode::Success => 0,
            ReasonCode::GrantedQoS1 => 1,
            ReasonCode::GrantedQoS2 => 2,
            ReasonCode::DisconnectWithWillMessage => 4,
            ReasonCode::NoMatchingSubscribers => 16,
            ReasonCode::NoSubscriptionExisted => 17,
            ReasonCode::ContinueAuthentication => 24,
            ReasonCode::ReAuthenticate => 25,
            ReasonCode::UnspecifiedError => 128,
            ReasonCode::MalformedPacket => 129,
            ReasonCode::ProtocolError => 130,
            ReasonCode::ImplementationSpecificError => 131,
            ReasonCode::UnsupportedProtocolVersion => 132,
            ReasonCode::ClientIdentifierNotValid => 133,
            ReasonCode::BadUserNameOrPassword => 134,
            ReasonCode::NotAuthorized => 135,
            ReasonCode::ServerUnavailable => 136,
            ReasonCode::ServerBusy => 137,
            ReasonCode::Banned => 138,
            ReasonCode::ServerShuttingDown => 139,
            ReasonCode::BadAuthenticationMethod => 140,
            ReasonCode::KeepAliveTimeout => 141,
            ReasonCode::SessionTakenOver => 142,
            ReasonCode::TopicFilterInvalid => 143,
            ReasonCode::TopicNameInvalid => 144,
            ReasonCode::PacketIdentifierInUse => 145,
            ReasonCode::PacketIdentifierNotFound => 146,
            ReasonCode::ReceiveMaximumExceeded => 147,
            ReasonCode::TopicAliasInvalid => 148,
            ReasonCode::PacketTooLarge => 149,
            ReasonCode::MessageRateTooHigh => 150,
            ReasonCode::QuotaExceeded => 151,
            ReasonCode::AdministrativeAction => 152,
            ReasonCode::PayloadFormatInvalid => 153,
            ReasonCode::RetainNotSupported => 154,
            ReasonCode::QoSNotSupported => 155,
            ReasonCode::UseAnotherServer => 156,
            ReasonCode::ServerMoved => 157,
            ReasonCode::SharedSubscriptionsNotSupported => 158,
            ReasonCode::ConnectionRateExceeded => 159,
            ReasonCode::MaximumConnectTime => 160,
            ReasonCode::SubscriptionIdentifiersNotSupported => 161,
            ReasonCode::WildcardSubscriptionsNotSupported => 162,
        }
    }

    /// Whether this is one of the success codes (0, 1, 2).
    pub fn is_success(&self) -> (b: bool)
        ensures
            b == (*self is Success || *self is GrantedQoS1 || *self is GrantedQoS2),
    {
        matches!(self, ReasonCode::Success | ReasonCode::GrantedQoS1 | ReasonCode::GrantedQoS2)
    }
}

// ===== CONNECT =====

#[derive(Debug, Clone)]
pub struct ConnectPacket {
    pub client_id: String,
    pub clean_start: bool,
    pub keep_alive: u16,
    pub properties: Properties,
    pub will: Option<Will>,
    pub username: Option<String>,
    pub password: Option<String>,
}

#[derive(Debug, Clone)]
pub struct Will {
    pub topic: String,
    pub payload: Vec<u8>,
    pub qos: QoS,
    pub retain: bool,
    pub properties: Properties,
    pub delay_interval: u32,
}

// ===== CONNACK =====

#[derive(Debug, Clone)]
pub struct ConnAckPacket {
    pub session_present: bool,
    pub reason_code: ReasonCode,
    pub properties: Properties,
}

// ===== PUBLISH =====

#[derive(Debug, Clone)]
pub struct PublishPacket {
    pub topic: String,
    pub payload: Vec<u8>,
    pub qos: QoS,
    pub retain: bool,
    pub packet_id: Option<PacketId>,
    pub properties: Properties,
}

// ===== PUBACK / PUBREC / PUBREL / PUBCOMP =====

#[derive(Debug, Clone)]
pub struct PubAckPacket {
    pub packet_id: PacketId,
    pub reason_code: ReasonCode,
    pub properties: Properties,
}

#[derive(Debug, Clone)]
pub struct PubRecPacket {
    pub packet_id: PacketId,
    pub reason_code: ReasonCode,
    pub properties: Properties,
}

#[derive(Debug, Clone)]
pub struct PubRelPacket {
    pub packet_id: PacketId,
    pub reason_code: ReasonCode,
    pub properties: Properties,
}

#[derive(Debug, Clone)]
pub struct PubCompPacket {
    pub packet_id: PacketId,
    pub reason_code: ReasonCode,
    pub properties: Properties,
}

// ===== SUBSCRIBE =====

#[derive(Debug, Clone)]
pub struct SubscribePacket {
    pub packet_id: PacketId,
    pub filters: Vec<SubscribeFilter>,
    pub properties: Properties,
}

#[derive(Debug, Clone)]
pub struct SubscribeFilter {
    pub path: String,
    pub qos: QoS,
    pub no_local: bool,
    pub retain_as_published: bool,
    pub retain_handling: RetainHandling,
}

#[derive(Debug, Clone, Copy, PartialEq, Eq, Structural)]
pub enum RetainHandling {
    /// Send retained messages at subscribe time.
    Send,
    /// Send retained only if subscription did not exist.
    SendIfNew,
    /// Do not send retained messages.
    DoNotSend,
}

impl RetainHandling {
    /// The wire value of a retain-handling option.
    pub open spec fn spec_to_u8(self) -> u8 {
        match self {
            RetainHandling::Send => 0,
            RetainHandling::SendIfNew => 1,
            RetainHandling::DoNotSend => 2,
        }
    }

    /// The option named by the low two bits of `v` (3 names none).
    pub open spec fn spec_from_u8(v: u8) -> Option<RetainHandling> {
        let b = v & 0x03;
        if b == 0 {
            Some(RetainHandling::Send)
        } else if b == 1 {
            Some(RetainHandling::SendIfNew)
        } else if b == 2 {
            Some(RetainHandling::DoNotSend)
        } else {
            None
        }
    }

    /// The retain-handling option in the low two bits of `v`, if any.
    pub fn from_u8(v: u8) -> (r: Option<Self>)
        ensures
            r == Self::spec_from_u8(v),
    {
        match v & 0x03 {
            0 => Some(RetainHandling::Send),
            1 => Some(RetainHandling::SendIfNew),
            2 => Some(RetainHandling::DoNotSend),
            _ => None,
        }
    }

    /// The wire value of this option.
    pub fn to_u8(self) -> (v: u8)
        ensures
            v == self.spec_to_u8(),
    {
        match self {
            RetainHandling::Send => 0,
            RetainHandling::SendIfNew => 1,
            RetainHandling::DoNotSend => 2,
        }
    }
}

// ===== SUBACK =====

#[derive(Debug, Clone)]
pub struct SubAckPacket {
    pub packet_id: PacketId,
    pub reason_codes: Vec<ReasonCode>,
    pub properties: Properties,
}

// ===== UNSUBSCRIBE =====

#[derive(Debug, Clone)]
pub struct UnsubscribePacket {
    pub packet_id: PacketId,
    pub filters: Vec<String>,
    pub properties: Properties,
}

// ===== UNSUBACK =====

#[derive(Debug, Clone)]
pub struct UnsubAckPacket {
    pub packet_id: PacketId,
    pub reason_codes: Vec<ReasonCode>,
    pub properties: Properties,
}

// ===== PINGREQ / PINGRESP =====

#[derive(Debug, Clone)]
pub struct PingReqPacket;

#[derive(Debug, Clone)]
pub struct PingRespPacket;

// ===== DISCONNECT =====

#[derive(Debug, Clone)]
pub struct DisconnectPacket {
    pub reason_code: ReasonCode,
    pub properties: Properties,
}

// ===== AUTH =====

#[derive(Debug, Clone)]
pub struct AuthPacket {
    pub reason_code: ReasonCode,
    pub properties: Properties,
}

// ===== Enum of all MQTT 5.0 packets =====

#[derive(Debug, Clone)]
pub enum MqttPacketV5 {
    Connect(ConnectPacket),
    ConnAck(ConnAckPacket),
    Publish(PublishPacket),
    PubAck(PubAckPacket),
    PubRec(PubRecPacket),
    PubRel(PubRelPacket),
    PubComp(PubCompPacket),
    Subscribe(SubscribePacket),
    SubAck(SubAckPacket),
    Unsubscribe(UnsubscribePacket),
    UnsubAck(UnsubAckPacket),
    PingReq(PingReqPacket),
    PingResp(PingRespPacket),
    Disconnect(DisconnectPacket),
    Auth(AuthPacket),
}

// ===== What the packets say =====

/// A property list's contents.
pub type PropsView = Seq<(crate::v5::properties::PropertyId, PropertyValueView)>;

pub struct WillV5View {
    pub topic: Seq<char>,
    pub payload: Seq<u8>,
    pub qos: QoS,
    pub retain: bool,
    pub properties: PropsView,
    pub delay_interval: u32,
}

pub struct ConnectV5View {
    pub client_id: Seq<char>,
    pub clean_start: bool,
    pub keep_alive: u16,
    pub properties: PropsView,
    pub will: Option<WillV5View>,
    pub username: Option<Seq<char>>,
    pub password: Option<Seq<char>>,
}

pub struct PublishV5View {
    pub topic: Seq<char>,
    pub payload: Seq<u8>,
    pub qos: QoS,
    pub retain: bool,
    pub packet_id: Option<u16>,
    pub properties: PropsView,
}

/// PUBACK, PUBREC, PUBREL and PUBCOMP all say this.
pub struct AckV5View {
    pub packet_id: u16,
    pub reason_code: ReasonCode,
    pub properties: PropsView,
}

pub struct SubscribeFilterV5View {
    pub path: Seq<char>,
    pub qos: QoS,
    pub no_local: bool,
    pub retain_as_published: bool,
    pub retain_handling: RetainHandling,
}

/// SUBACK and UNSUBACK both say this.
pub struct CodesV5View {
    pub packet_id: u16,
    pub reason_codes: Seq<ReasonCode>,
    pub properties: PropsView,
}

/// DISCONNECT and AUTH both say this.
pub struct ReasonV5View {
    pub reason_code: ReasonCode,
    pub properties: PropsView,
}

/// What an MQTT 5.0 packet says.
pub enum PacketV5View {
    Connect(ConnectV5View),
    ConnAck(bool, ReasonCode, PropsView),
    Publish(PublishV5View),
    PubAck(AckV5View),
    PubRec(AckV5View),
    PubRel(AckV5View),
    PubComp(AckV5View),
    Subscribe(u16, Seq<SubscribeFilterV5View>, PropsView),
    SubAck(CodesV5View),
    Unsubscribe(u16, Seq<Seq<char>>, PropsView),
    UnsubAck(CodesV5View),
    PingReq,
    PingResp,
    Disconnect(ReasonV5View),
    Auth(ReasonV5View),
}

impl View for Will {
    type V = WillV5View;

    open spec fn view(&self) -> WillV5View {
        WillV5View {
            topic: self.topic@,
            payload: self.payload@,
            qos: self.qos,
            retain: self.retain,
            properties: self.properties@,
            delay_interval: self.delay_interval,
        }
    }
}

pub open spec fn opt_will_v5_view(w: Option<Will>) -> Option<WillV5View> {
    match w {
        Some(w) => Some(w@),
        None => None,
    }
}

impl View for ConnectPacket {
    type V = ConnectV5View;

    open spec fn view(&self) -> ConnectV5View {
        ConnectV5View {
            client_id: self.client_id@,
            clean_start: self.clean_start,
            keep_alive: self.keep_alive,
            properties: self.properties@,
            will: opt_will_v5_view(self.will),
            username: crate::v3::types::opt_string_view(self.username),
            password: crate::v3::types::opt_string_view(self.password),
        }
    }
}

impl View for PublishPacket {
    type V = PublishV5View;

    open spec fn view(&self) -> PublishV5View {
        PublishV5View {
            topic: self.topic@,
            payload: self.payload@,
            qos: self.qos,
            retain: self.retain,
            packet_id: self.packet_id,
            properties: self.properties@,
        }
    }
}

impl View for SubscribeFilter {
    type V = SubscribeFilterV5View;

    open spec fn view(&self) -> SubscribeFilterV5View {
        SubscribeFilterV5View {
            path: self.path@,
            qos: self.qos,
            no_local: self.no_local,
            retain_as_published: self.retain_as_published,
            retain_handling: self.retain_handling,
        }
    }
}

pub open spec fn filters_v5_view(v: Seq<SubscribeFilter>) -> Seq<SubscribeFilterV5View> {
    v.map_values(|f: SubscribeFilter| f@)
}

impl View for MqttPacketV5 {
    type V = PacketV5View;

    open spec fn view(&self) -> PacketV5View {
        match self {
            MqttPacketV5::Connect(p) => PacketV5View::Connect(p@),
            MqttPacketV5::ConnAck(p) => PacketV5View::ConnAck(p.session_present, p.reason_code, p.properties@),
            MqttPacketV5::Publish(p) => PacketV5View::Publish(p@),
            MqttPacketV5::PubAck(p) => PacketV5View::PubAck(
                AckV5View { packet_id: p.packet_id, reason_code: p.reason_code, properties: p.properties@ },
            ),
            MqttPacketV5::PubRec(p) => PacketV5View::PubRec(
                AckV5View { packet_id: p.packet_id, reason_code: p.reason_code, properties: p.properties@ },
            ),
            MqttPacketV5::PubRel(p) => PacketV5View::PubRel(
                AckV5View { packet_id: p.packet_id, reason_code: p.reason_code, properties: p.properties@ },
            ),
            MqttPacketV5::PubComp(p) => PacketV5View::PubComp(
                AckV5View { packet_id: p.packet_id, reason_code: p.reason_code, properties: p.properties@ },
            ),
            MqttPacketV5::Subscribe(p) => PacketV5View::Subscribe(
                p.packet_id,
                filters_v5_view(p.filters@),
                p.properties@,
            ),
            MqttPacketV5::SubAck(p) => PacketV5View::SubAck(
                CodesV5View { packet_id: p.packet_id, reason_codes: p.reason_codes@, properties: p.properties@ },
            ),
            MqttPacketV5::Unsubscribe(p) => PacketV5View::Unsubscribe(
                p.packet_id,
                crate::v3::types::strings_view(p.filters@),
                p.properties@,
            ),
            MqttPacketV5::UnsubAck(p) => PacketV5View::UnsubAck(
                CodesV5View { packet_id: p.packet_id, reason_codes: p.reason_codes@, properties: p.properties@ },
            ),
            MqttPacketV5::PingReq(_) => PacketV5View::PingReq,
            MqttPacketV5::PingResp(_) => PacketV5View::PingResp,
            MqttPacketV5::Disconnect(p) => PacketV5View::Disconnect(
                ReasonV5View { reason_code: p.reason_code, properties: p.properties@ },
            ),
            MqttPacketV5::Auth(p) => PacketV5View::Auth(
                ReasonV5View { reason_code: p.reason_code, properties: p.properties@ },
            ),
        }
    }
}

} // verus!
