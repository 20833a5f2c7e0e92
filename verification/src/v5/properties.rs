//! MQTT 5.0 properties: identifiers, values, and their wire encoding.

use vstd::prelude::*;
use crate::common::{
    MqttError, MqttResult, Fault, invalid, spec_encode_string, spec_u16_be, be16, spec_string_at,
    string_at, spec_encode_varint, spec_decode_varint, encode_remaining_length,
    decode_remaining_length, append_bytes, push_u16_be, read_u16_be, push_string, concat_map,
    lemma_concat_map_push, lemma_string_at_advances, lemma_varint_decoded_bounds, fits_u16_string,
    lemma_string_at_concat, lemma_u16_be_roundtrip, lemma_varint_roundtrip,
};

verus! {

/// MQTT 5.0 Property IDs.
#[derive(Debug, Clone, Copy, PartialEq, Eq, Structural)]
pub enum PropertyId {
    PayloadFormatIndicator,
    MessageExpiryInterval,
    ContentType,
    ResponseTopic,
    CorrelationData,
    SubscriptionIdentifier,
    SessionExpiryInterval,
    AssignedClientIdentifier,
    ServerKeepAlive,
    AuthenticationMethod,
    AuthenticationData,
    RequestProblemInformation,
    WillDelayInterval,
    RequestResponseInformation,
    ResponseInformation,
    ServerReference,
    ReasonString,
    ReceiveMaximum,
    TopicAliasMaximum,
    TopicAlias,
    MaximumQoS,
    RetainAvailable,
    UserProperty,
    MaximumPacketSize,
    WildcardSubscriptionAvailable,
    SubscriptionIdentifierAvailable,
    SharedSubscriptionAvailable,
}

/// The wire form of a property's value, fixed by its identifier.
#[derive(Debug, Clone, Copy, PartialEq, Eq, Structural)]
pub enum PropertyKind {
    Byte,
    TwoByte,
    FourByte,
    VarInt,
    Binary,
    Utf8,
    Pair,
}

impl PropertyId {
    /// The identifier byte of a property.
    pub open spec fn spec_to_u8(self) -> u8 {
        match self {
            PropertyId::PayloadFormatIndicator => 1,
            PropertyId::MessageExpiryInterval => 2,
            PropertyId::ContentType => 3,
            PropertyId::ResponseTopic => 8,
            PropertyId::CorrelationData => 9,
            PropertyId::SubscriptionIdentifier => 11,
            PropertyId::SessionExpiryInterval => 17,
            PropertyId::AssignedClientIdentifier => 18,
            PropertyId::ServerKeepAlive => 19,
            PropertyId::AuthenticationMethod => 21,
            PropertyId::AuthenticationData => 22,
            PropertyId::RequestProblemInformation => 23,
            PropertyId::WillDelayInterval => 24,
            PropertyId::RequestResponseInformation => 25,
            PropertyId::ResponseInformation => 26,
            PropertyId::ServerReference => 28,
            PropertyId::ReasonString => 31,
            PropertyId::ReceiveMaximum => 33,
            PropertyId::TopicAliasMaximum => 34,
            PropertyId::TopicAlias => 35,
            PropertyId::MaximumQoS => 36,
            PropertyId::RetainAvailable => 37,
            PropertyId::UserProperty => 38,
            PropertyId::MaximumPacketSize => 39,
            PropertyId::WildcardSubscriptionAvailable => 40,
            PropertyId::SubscriptionIdentifierAvailable => 41,
            PropertyId::SharedSubscriptionAvailable => 42,
        }
    }

    /// The property an identifier byte names, if any.
    pub open spec fn spec_from_u8(v: u8) -> Option<PropertyId> {
        if v == 1 {
            Some(PropertyId::PayloadFormatIndicator)
        } else if v == 2 {
            Some(PropertyId::MessageExpiryInterval)
        } else if v == 3 {
            Some(PropertyId::ContentType)
        } else if v == 8 {
            Some(PropertyId::ResponseTopic)
        } else if v == 9 {
            Some(PropertyId::CorrelationData)
        } else if v == 11 {
            Some(PropertyId::SubscriptionIdentifier)
        } else if v == 17 {
            Some(PropertyId::SessionExpiryInterval)
        } else if v == 18 {
            Some(PropertyId::AssignedClientIdentifier)
        } else if v == 19 {
            Some(PropertyId::ServerKeepAlive)
        } else if v == 21 {
            Some(PropertyId::AuthenticationMethod)
        } else if v == 22 {
            Some(PropertyId::AuthenticationData)
        } else if v == 23 {
            Some(PropertyId::RequestProblemInformation)
        } else if v == 24 {
            Some(PropertyId::WillDelayInterval)
        } else if v == 25 {
            Some(PropertyId::RequestResponseInformation)
        } else if v == 26 {
            Some(PropertyId::ResponseInformation)
        } else if v == 28 {
            Some(PropertyId::ServerReference)
        } else if v == 31 {
            Some(PropertyId::ReasonString)
        } else if v == 33 {
            Some(PropertyId::ReceiveMaximum)
        } else if v == 34 {
            Some(PropertyId::TopicAliasMaximum)
        } else if v == 35 {
            Some(PropertyId::TopicAlias)
        } else if v == 36 {
            Some(PropertyId::MaximumQoS)
        } else if v == 37 {
            Some(PropertyId::RetainAvailable)
        } else if v == 38 {
            Some(PropertyId::UserProperty)
        } else if v == 39 {
            Some(PropertyId::MaximumPacketSize)
        } else if v == 40 {
            Some(PropertyId::WildcardSubscriptionAvailable)
        } else if v == 41 {
            Some(PropertyId::SubscriptionIdentifierAvailable)
        } else if v == 42 {
            Some(PropertyId::SharedSubscriptionAvailable)
        } else {
            None
        }
    }

    /// The wire form of this property's value.
    pub open spec fn spec_kind(self) -> PropertyKind {
        match self {
            PropertyId::PayloadFormatIndicator | PropertyId::RequestProblemInformation | PropertyId::RequestResponseInformation | PropertyId::MaximumQoS | PropertyId::RetainAvailable | PropertyId::WildcardSubscriptionAvailable | PropertyId::SubscriptionIdentifierAvailable | PropertyId::SharedSubscriptionAvailable => PropertyKind::Byte,
            PropertyId::MessageExpiryInterval | PropertyId::SessionExpiryInterval | PropertyId::WillDelayInterval | PropertyId::MaximumPacketSize => PropertyKind::FourByte,
            PropertyId::ContentType | PropertyId::ResponseTopic | PropertyId::AssignedClientIdentifier | PropertyId::AuthenticationMethod | PropertyId::ResponseInformation | PropertyId::ServerReference | PropertyId::ReasonString => PropertyKind::Utf8,
            PropertyId::CorrelationData | PropertyId::AuthenticationData => PropertyKind::Binary,
            PropertyId::SubscriptionIdentifier => PropertyKind::VarInt,
            PropertyId::ServerKeepAlive | PropertyId::ReceiveMaximum | PropertyId::TopicAliasMaximum | PropertyId::TopicAlias => PropertyKind::TwoByte,
            PropertyId::UserProperty => PropertyKind::Pair,
        }
    }

    /// An identifier's byte names it again.
    pub proof fn lemma_spec_from_to(id: PropertyId)
        ensures
            Self::spec_from_u8(id.spec_to_u8()) == Some(id),
    {
    }

    /// The identifiers have their MQTT 5.0 wire bytes (the standard's table
    /// of property identifiers), each byte names its property back, and a
    /// byte that names a property is that property's byte.
    pub proof fn lemma_wire_bytes(v: u8)
        ensures
            PropertyId::PayloadFormatIndicator.spec_to_u8() == 0x01,
            PropertyId::spec_from_u8(0x01) == Some(PropertyId::PayloadFormatIndicator),
            PropertyId::MessageExpiryInterval.spec_to_u8() == 0x02,
            PropertyId::spec_from_u8(0x02) == Some(PropertyId::MessageExpiryInterval),
            PropertyId::ContentType.spec_to_u8() == 0x03,
            PropertyId::spec_from_u8(0x03) == Some(PropertyId::ContentType),
            PropertyId::ResponseTopic.spec_to_u8() == 0x08,
            PropertyId::spec_from_u8(0x08) == Some(PropertyId::ResponseTopic),
            PropertyId::CorrelationData.spec_to_u8() == 0x09,
            PropertyId::spec_from_u8(0x09) == Some(PropertyId::CorrelationData),
            PropertyId::SubscriptionIdentifier.spec_to_u8() == 0x0B,
            PropertyId::spec_from_u8(0x0B) == Some(PropertyId::SubscriptionIdentifier),
            PropertyId::SessionExpiryInterval.spec_to_u8() == 0x11,
            PropertyId::spec_from_u8(0x11) == Some(PropertyId::SessionExpiryInterval),
            PropertyId::AssignedClientIdentifier.spec_to_u8() == 0x12,
            PropertyId::spec_from_u8(0x12) == Some(PropertyId::AssignedClientIdentifier),
            PropertyId::ServerKeepAlive.spec_to_u8() == 0x13,
            PropertyId::spec_from_u8(0x13) == Some(PropertyId::ServerKeepAlive),
            PropertyId::AuthenticationMethod.spec_to_u8() == 0x15,
            PropertyId::spec_from_u8(0x15) == Some(PropertyId::AuthenticationMethod),
            PropertyId::AuthenticationData.spec_to_u8() == 0x16,
            PropertyId::spec_from_u8(0x16) == Some(PropertyId::AuthenticationData),
            PropertyId::RequestProblemInformation.spec_to_u8() == 0x17,
            PropertyId::spec_from_u8(0x17) == Some(PropertyId::RequestProblemInformation),
            PropertyId::WillDelayInterval.spec_to_u8() == 0x18,
            PropertyId::spec_from_u8(0x18) == Some(PropertyId::WillDelayInterval),
            PropertyId::RequestResponseInformation.spec_to_u8() == 0x19,
            PropertyId::spec_from_u8(0x19) == Some(PropertyId::RequestResponseInformation),
            PropertyId::ResponseInformation.spec_to_u8() == 0x1A,
            PropertyId::spec_from_u8(0x1A) == Some(PropertyId::ResponseInformation),
            PropertyId::ServerReference.spec_to_u8() == 0x1C,
            PropertyId::spec_from_u8(0x1C) == Some(PropertyId::ServerReference),
            PropertyId::ReasonString.spec_to_u8() == 0x1F,
            PropertyId::spec_from_u8(0x1F) == Some(PropertyId::ReasonString),
            PropertyId::ReceiveMaximum.spec_to_u8() == 0x21,
            PropertyId::spec_from_u8(0x21) == Some(PropertyId::ReceiveMaximum),
            PropertyId::TopicAliasMaximum.spec_to_u8() == 0x22,
            PropertyId::spec_from_u8(0x22) == Some(PropertyId::TopicAliasMaximum),
            PropertyId::TopicAlias.spec_to_u8() == 0x23,
            PropertyId::spec_from_u8(0x23) == Some(PropertyId::TopicAlias),
            PropertyId::MaximumQoS.spec_to_u8() == 0x24,
            PropertyId::spec_from_u8(0x24) == Some(PropertyId::MaximumQoS),
            PropertyId::RetainAvailable.spec_to_u8() == 0x25,
            PropertyId::spec_from_u8(0x25) == Some(PropertyId::RetainAvailable),
            PropertyId::UserProperty.spec_to_u8() == 0x26,
            PropertyId::spec_from_u8(0x26) == Some(PropertyId::UserProperty),
            PropertyId::MaximumPacketSize.spec_to_u8() == 0x27,
            PropertyId::spec_from_u8(0x27) == Some(PropertyId::MaximumPacketSize),
            PropertyId::WildcardSubscriptionAvailable.spec_to_u8() == 0x28,
            PropertyId::spec_from_u8(0x28) == Some(PropertyId::WildcardSubscriptionAvailable),
            PropertyId::SubscriptionIdentifierAvailable.spec_to_u8() == 0x29,
            PropertyId::spec_from_u8(0x29) == Some(PropertyId::SubscriptionIdentifierAvailable),
            PropertyId::SharedSubscriptionAvailable.spec_to_u8() == 0x2A,
            PropertyId::spec_from_u8(0x2A) == Some(PropertyId::SharedSubscriptionAvailable),
            Self::spec_from_u8(v) matches Some(id) ==> id.spec_to_u8() == v,
    {
    }

    /// The property with the given identifier byte, if there is one.
    pub fn from_u8(v: u8) -> (r: Option<Self>)
        ensures
            r == Self::spec_from_u8(v),
    {
        match v {
            1 => Some(PropertyId::PayloadFormatIndicator),
            2 => Some(PropertyId::MessageExpiryInterval),
            3 => Some(PropertyId::ContentType),
            8 => Some(PropertyId::ResponseTopic),
            9 => Some(PropertyId::CorrelationData),
            11 => Some(PropertyId::SubscriptionIdentifier),
            17 => Some(PropertyId::SessionExpiryInterval),
            18 => Some(PropertyId::AssignedClientIdentifier),
            19 => Some(PropertyId::ServerKeepAlive),
            21 => Some(PropertyId::AuthenticationMethod),
            22 => Some(PropertyId::AuthenticationData),
            23 => Some(PropertyId::RequestProblemInformation),
            24 => Some(PropertyId::WillDelayInterval),
            25 => Some(PropertyId::RequestResponseInformation),
            26 => Some(PropertyId::ResponseInformation),
            28 => Some(PropertyId::ServerReference),
            31 => Some(PropertyId::ReasonString),
            33 => Some(PropertyId::ReceiveMaximum),
            34 => Some(PropertyId::TopicAliasMaximum),
            35 => Some(PropertyId::TopicAlias),
            36 => Some(PropertyId::MaximumQoS),
            37 => Some(PropertyId::RetainAvailable),
            38 => Some(PropertyId::UserProperty),
            39 => Some(PropertyId::MaximumPacketSize),
            40 => Some(PropertyId::WildcardSubscriptionAvailable),
            41 => Some(PropertyId::SubscriptionIdentifierAvailable),
            42 => Some(PropertyId::SharedSubscriptionAvailable),
            _ => None,
        }
    }

    /// The identifier byte of this property.
    pub fn to_u8(self) -> (v: u8)
        ensures
            v == self.spec_to_u8(),
    {
        match self {
            PropertyId::PayloadFormatIndicator => 1,
            PropertyId::MessageExpiryInterval => 2,
            PropertyId::ContentType => 3,
            PropertyId::ResponseTopic => 8,
            PropertyId::CorrelationData => 9,
            PropertyId::SubscriptionIdentifier => 11,
            PropertyId::SessionExpiryInterval => 17,
            PropertyId::AssignedClientIdentifier => 18,
            PropertyId::ServerKeepAlive => 19,
            PropertyId::AuthenticationMethod => 21,
            PropertyId::AuthenticationData => 22,
            PropertyId::RequestProblemInformation => 23,
            PropertyId::WillDelayInterval => 24,
            PropertyId::RequestResponseInformation => 25,
            PropertyId::ResponseInformation => 26,
            PropertyId::ServerReference => 28,
            PropertyId::ReasonString => 31,
            PropertyId::ReceiveMaximum => 33,
            PropertyId::TopicAliasMaximum => 34,
            PropertyId::TopicAlias => 35,
            PropertyId::MaximumQoS => 36,
            PropertyId::RetainAvailable => 37,
            PropertyId::UserProperty => 38,
            PropertyId::MaximumPacketSize => 39,
            PropertyId::WildcardSubscriptionAvailable => 40,
            PropertyId::SubscriptionIdentifierAvailable => 41,
            PropertyId::SharedSubscriptionAvailable => 42,
        }
    }
}

/// A single MQTT 5.0 property value.
#[derive(Debug, Clone, PartialEq)]
pub enum PropertyValue {
    Byte(u8),
    TwoByteInteger(u16),
    FourByteInteger(u32),
    VariableByteInteger(u32),
    BinaryData(Vec<u8>),
    UTF8String(String),
    /// User property
    Pair(String, String),
}

/// What a property value holds.
pub enum PropertyValueView {
    Byte(u8),
    TwoByteInteger(u16),
    FourByteInteger(u32),
    VariableByteInteger(u32),
    BinaryData(Seq<u8>),
    UTF8String(Seq<char>),
    Pair(Seq<char>, Seq<char>),
}

impl View for PropertyValue {
    type V = PropertyValueView;

    open spec fn view(&self) -> PropertyValueView {
        match self {
            PropertyValue::Byte(v) => PropertyValueView::Byte(*v),
            PropertyValue::TwoByteInteger(v) => PropertyValueView::TwoByteInteger(*v),
            PropertyValue::FourByteInteger(v) => PropertyValueView::FourByteInteger(*v),
            PropertyValue::VariableByteInteger(v) => PropertyValueView::VariableByteInteger(*v),
            PropertyValue::BinaryData(v) => PropertyValueView::BinaryData(v@),
            PropertyValue::UTF8String(s) => PropertyValueView::UTF8String(s@),
            PropertyValue::Pair(k, v) => PropertyValueView::Pair(k@, v@),
        }
    }
}

/// Collection of MQTT 5.0 properties, in order.
#[derive(Debug, Clone, Default, PartialEq)]
pub struct Properties {
    pub inner: Vec<(PropertyId, PropertyValue)>,
}

/// The properties held by a sequence of (identifier, value) pairs.
pub open spec fn props_view(s: Seq<(PropertyId, PropertyValue)>) -> Seq<(PropertyId, PropertyValueView)> {
    s.map_values(|p: (PropertyId, PropertyValue)| (p.0, p.1@))
}

impl View for Properties {
    type V = Seq<(PropertyId, PropertyValueView)>;

    open spec fn view(&self) -> Seq<(PropertyId, PropertyValueView)> {
        props_view(self.inner@)
    }
}

/// The values of the properties with identifier `id`, in order.
pub open spec fn spec_props_get(s: Seq<(PropertyId, PropertyValueView)>, id: PropertyId) -> Seq<PropertyValueView>
    decreases s.len(),
{
    if s.len() == 0 {
        Seq::empty()
    } else {
        let prev = spec_props_get(s.drop_last(), id);
        if s.last().0 == id {
            prev.push(s.last().1)
        } else {
            prev
        }
    }
}

/// The value of the first property with identifier `id`, if any.
pub open spec fn spec_props_first(s: Seq<(PropertyId, PropertyValueView)>, id: PropertyId) -> Option<PropertyValueView>
    decreases s.len(),
{
    if s.len() == 0 {
        None
    } else if s[0].0 == id {
        Some(s[0].1)
    } else {
        spec_props_first(s.drop_first(), id)
    }
}

/// Adding a property at the end: its identifier's first value stays the
/// first one if there was one, and is the added value if there was none.
pub proof fn lemma_props_first_push(s: Seq<(PropertyId, PropertyValueView)>, e: (PropertyId, PropertyValueView), id: PropertyId)
    ensures
        spec_props_first(s.push(e), id) == (match spec_props_first(s, id) {
            Some(v) => Some(v),
            None => if e.0 == id {
                Some(e.1)
            } else {
                None
            },
        }),
    decreases s.len(),
{
    let t = s.push(e);
    if s.len() > 0 {
        assert(t[0] == s[0]);
        assert(t.drop_first() =~= s.drop_first().push(e));
        lemma_props_first_push(s.drop_first(), e, id);
        if s[0].0 == id {
            assert(spec_props_first(s, id) == Some(s[0].1));
            assert(spec_props_first(t, id) == Some(s[0].1));
        } else {
            assert(spec_props_first(s, id) == spec_props_first(s.drop_first(), id));
            assert(spec_props_first(t, id) == spec_props_first(t.drop_first(), id));
        }
    } else {
        assert(t[0] == e);
        assert(t.drop_first() =~= Seq::<(PropertyId, PropertyValueView)>::empty());
        assert(spec_props_first(t.drop_first(), id) is None);
        assert(spec_props_first(s, id) is None);
    }
}

/// `get`, `get_first` and `add` agree: the first value `get` lists is what
/// `get_first` gives (none when `get` lists none); adding a property appends
/// its value to what `get` lists for its identifier, leaves the lists of the
/// other identifiers as they were, and keeps a first value already there.
pub proof fn lemma_props_get_first_add(s: Seq<(PropertyId, PropertyValueView)>, id: PropertyId, v: PropertyValueView, other: PropertyId)
    ensures
        spec_props_first(s, id) == (if spec_props_get(s, id).len() > 0 {
            Some(spec_props_get(s, id)[0])
        } else {
            None::<PropertyValueView>
        }),
        spec_props_get(s.push((id, v)), id) == spec_props_get(s, id).push(v),
        other != id ==> spec_props_get(s.push((id, v)), other) == spec_props_get(s, other),
        spec_props_first(s.push((id, v)), id) == (match spec_props_first(s, id) {
            Some(w) => Some(w),
            None => Some(v),
        }),
    decreases s.len(),
{
    assert(s.push((id, v)).drop_last() =~= s);
    lemma_props_first_push(s, (id, v), id);
    if s.len() > 0 {
        let d = s.drop_last();
        lemma_props_get_first_add(d, id, v, other);
        lemma_props_first_push(d, s.last(), id);
        assert(d.push(s.last()) =~= s);
    }
}

/// The first property with identifier `id`, when it is a four-byte integer.
pub open spec fn spec_first_u32(s: Seq<(PropertyId, PropertyValueView)>, id: PropertyId) -> Option<u32> {
    match spec_props_first(s, id) {
        Some(PropertyValueView::FourByteInteger(v)) => Some(v),
        _ => None,
    }
}

/// The first property with identifier `id`, when it is a two-byte integer.
pub open spec fn spec_first_u16(s: Seq<(PropertyId, PropertyValueView)>, id: PropertyId) -> Option<u16> {
    match spec_props_first(s, id) {
        Some(PropertyValueView::TwoByteInteger(v)) => Some(v),
        _ => None,
    }
}

impl Properties {
    pub fn new() -> (p: Self)
        ensures
            p@ == Seq::<(PropertyId, PropertyValueView)>::empty(),
    {
        let p = Properties { inner: Vec::new() };
        assert(p@ =~= Seq::<(PropertyId, PropertyValueView)>::empty());
        p
    }

    pub fn with_capacity(cap: usize) -> (p: Self)
        ensures
            p@ == Seq::<(PropertyId, PropertyValueView)>::empty(),
    {
        let p = Properties { inner: Vec::with_capacity(cap) };
        assert(p@ =~= Seq::<(PropertyId, PropertyValueView)>::empty());
        p
    }

    pub fn is_empty(&self) -> (b: bool)
        ensures
            b == (self@.len() == 0),
    {
        self.inner.len() == 0
    }

    /// Append a property.
    pub fn add(&mut self, id: PropertyId, value: PropertyValue)
        ensures
            final(self)@ == old(self)@.push((id, value@)),
    {
        let ghost v = value@;
        self.inner.push((id, value));
        assert(self@ =~= old(self)@.push((id, v)));
    }

    /// The values of all properties with identifier `id`, in order.
    pub fn get(&self, id: PropertyId) -> (r: Vec<&PropertyValue>)
        ensures
            r@.map_values(|v: &PropertyValue| v@) == spec_props_get(self@, id),
    {
        let ghost s = self@;
        let mut r: Vec<&PropertyValue> = Vec::new();
        let mut i: usize = 0;
        while i < self.inner.len()
            invariant
                i <= self.inner.len(),
                s == self@,
                r@.map_values(|v: &PropertyValue| v@) == spec_props_get(s.take(i as int), id),
            decreases self.inner.len() - i,
        {
            assert(s.take(i + 1).drop_last() =~= s.take(i as int));
            let ghost before = r@.map_values(|v: &PropertyValue| v@);
            let (k, v) = &self.inner[i];
            if *k == id {
                r.push(v);
                assert(r@.map_values(|v: &PropertyValue| v@) =~= before.push(v@));
            }
            i = i + 1;
        }
        assert(s.take(i as int) =~= s);
        r
    }

    /// The value of the first property with identifier `id`, if any.
    pub fn get_first(&self, id: PropertyId) -> (r: Option<&PropertyValue>)
        ensures
            match r {
                Some(v) => spec_props_first(self@, id) == Some(v@),
                None => spec_props_first(self@, id) is None,
            },
    {
        let ghost s = self@;
        let mut i: usize = 0;
        assert(s.skip(0) =~= s);
        while i < self.inner.len()
            invariant
                i <= self.inner.len(),
                s == self@,
                spec_props_first(s, id) == spec_props_first(s.skip(i as int), id),
            decreases self.inner.len() - i,
        {
            assert(s.skip(i as int).drop_first() =~= s.skip(i + 1));
            let (k, v) = &self.inner[i];
            if *k == id {
                return Some(v);
            }
            i = i + 1;
        }
        None
    }

    /// Session Expiry Interval, when present as a four-byte integer.
    pub fn session_expiry_interval(&self) -> (r: Option<u32>)
        ensures
            r == spec_first_u32(self@, PropertyId::SessionExpiryInterval),
    {
        match self.get_first(PropertyId::SessionExpiryInterval) {
            Some(PropertyValue::FourByteInteger(v)) => Some(*v),
            _ => None,
        }
    }

    /// Receive Maximum, when present as a two-byte integer.
    pub fn receive_maximum(&self) -> (r: Option<u16>)
        ensures
            r == spec_first_u16(self@, PropertyId::ReceiveMaximum),
    {
        match self.get_first(PropertyId::ReceiveMaximum) {
            Some(PropertyValue::TwoByteInteger(v)) => Some(*v),
            _ => None,
        }
    }

    /// Maximum Packet Size, when present as a four-byte integer.
    pub fn maximum_packet_size(&self) -> (r: Option<u32>)
        ensures
            r == spec_first_u32(self@, PropertyId::MaximumPacketSize),
    {
        match self.get_first(PropertyId::MaximumPacketSize) {
            Some(PropertyValue::FourByteInteger(v)) => Some(*v),
            _ => None,
        }
    }

    /// Topic Alias Maximum, when present as a two-byte integer.
    pub fn topic_alias_maximum(&self) -> (r: Option<u16>)
        ensures
            r == spec_first_u16(self@, PropertyId::TopicAliasMaximum),
    {
        match self.get_first(PropertyId::TopicAliasMaximum) {
            Some(PropertyValue::TwoByteInteger(v)) => Some(*v),
            _ => None,
        }
    }

    /// Reason String, when present as a string.
    pub fn reason_string(&self) -> (r: Option<&str>)
        ensures
            match r {
                Some(s) => spec_props_first(self@, PropertyId::ReasonString) == Some(
                    PropertyValueView::UTF8String(s@),
                ),
                None => !(spec_props_first(self@, PropertyId::ReasonString) matches Some(
                    PropertyValueView::UTF8String(_),
                )),
            },
    {
        match self.get_first(PropertyId::ReasonString) {
            Some(PropertyValue::UTF8String(s)) => Some(s.as_str()),
            _ => None,
        }
    }

    /// Will Delay Interval, when present as a four-byte integer.
    pub fn will_delay_interval(&self) -> (r: Option<u32>)
        ensures
            r == spec_first_u32(self@, PropertyId::WillDelayInterval),
    {
        match self.get_first(PropertyId::WillDelayInterval) {
            Some(PropertyValue::FourByteInteger(v)) => Some(*v),
            _ => None,
        }
    }
}

/// The wire form of a property value.
pub open spec fn spec_encode_value(v: PropertyValueView) -> Seq<u8> {
    match v {
        PropertyValueView::Byte(b) => seq![b],
        PropertyValueView::TwoByteInteger(x) => spec_u16_be(x),
        PropertyValueView::FourByteInteger(x) => crate::common::spec_u32_be(x),
        PropertyValueView::VariableByteInteger(x) => spec_encode_varint(x as nat),
        PropertyValueView::BinaryData(b) => spec_u16_be(b.len() as u16) + b,
        PropertyValueView::UTF8String(s) => spec_encode_string(s),
        PropertyValueView::Pair(k, x) => spec_encode_string(k) + spec_encode_string(x),
    }
}

/// The wire form of one property: identifier byte, then value.
pub open spec fn spec_encode_prop(p: (PropertyId, PropertyValueView)) -> Seq<u8> {
    seq![p.0.spec_to_u8()] + spec_encode_value(p.1)
}

/// The properties' bytes, without the length prefix.
pub open spec fn spec_props_body(ps: Seq<(PropertyId, PropertyValueView)>) -> Seq<u8> {
    concat_map(ps, |p: (PropertyId, PropertyValueView)| spec_encode_prop(p))
}

/// The wire form of a property list: its byte length as a variable byte
/// integer, then the properties.
pub open spec fn spec_encode_props(ps: Seq<(PropertyId, PropertyValueView)>) -> Seq<u8> {
    spec_encode_varint(spec_props_body(ps).len()) + spec_props_body(ps)
}

/// Decoding one property value of identifier `id` at `pos`, within a
/// property block ending at `end`.
pub open spec fn spec_decode_value(d: Seq<u8>, pos: nat, end: nat, id: PropertyId) -> Result<(PropertyValueView, nat), Fault> {
    let i = pos as int;
    match id.spec_kind() {
        PropertyKind::Byte => if pos >= end {
            Err(Fault::Invalid)
        } else {
            Ok((PropertyValueView::Byte(d[i]), pos + 1))
        },
        PropertyKind::TwoByte => if pos + 2 > end {
            Err(Fault::Invalid)
        } else {
            Ok((PropertyValueView::TwoByteInteger(be16(d[i], d[i + 1]) as u16), pos + 2))
        },
        PropertyKind::FourByte => if pos + 4 > end {
            Err(Fault::Invalid)
        } else {
            Ok(
                (
                    PropertyValueView::FourByteInteger(
                        crate::common::be32(d[i], d[i + 1], d[i + 2], d[i + 3]) as u32,
                    ),
                    pos + 4,
                ),
            )
        },
        PropertyKind::VarInt => match spec_decode_varint(d.subrange(i, d.len() as int)) {
            None => Err(Fault::RemainingLength),
            Some((v, c)) => Ok((PropertyValueView::VariableByteInteger(v as u32), pos + c)),
        },
        PropertyKind::Binary => if pos + 2 > end {
            Err(Fault::Invalid)
        } else {
            let n = be16(d[i], d[i + 1]);
            if pos + 2 + n > end {
                Err(Fault::Invalid)
            } else {
                Ok((PropertyValueView::BinaryData(d.subrange(i + 2, i + 2 + n)), pos + 2 + n))
            }
        },
        PropertyKind::Utf8 => match spec_string_at(d, pos) {
            Err(e) => Err(e),
            Ok((s, p)) => Ok((PropertyValueView::UTF8String(s), p)),
        },
        PropertyKind::Pair => match spec_string_at(d, pos) {
            Err(e) => Err(e),
            Ok((k, p1)) => match spec_string_at(d, p1) {
                Err(e) => Err(e),
                Ok((v, p2)) => Ok((PropertyValueView::Pair(k, v), p2)),
            },
        },
    }
}

/// A decoded value takes at least one byte and stays within the data.
pub proof fn lemma_decode_value_advances(d: Seq<u8>, pos: nat, end: nat, id: PropertyId)
    requires
        pos <= end <= d.len(),
    ensures
        spec_decode_value(d, pos, end, id) matches Ok((_, p)) ==> pos < p <= d.len(),
{
    lemma_string_at_advances(d, pos);
    lemma_varint_decoded_bounds(d.subrange(pos as int, d.len() as int));
    if let Ok((_, p1)) = spec_string_at(d, pos) {
        lemma_string_at_advances(d, p1);
    }
    if id.spec_kind() is VarInt {
        if let Some((v, c)) = spec_decode_varint(d.subrange(pos as int, d.len() as int)) {
            crate::common::lemma_varint_decoded_len(d.subrange(pos as int, d.len() as int));
        }
    }
}

/// Decoding properties from `pos` up to `end`, after those in `acc`.
pub open spec fn spec_decode_items(d: Seq<u8>, pos: nat, end: nat, acc: Seq<(PropertyId, PropertyValueView)>) -> Result<Seq<(PropertyId, PropertyValueView)>, Fault>
    decreases d.len() - pos,
    when end <= d.len()
{
    if pos >= end {
        Ok(acc)
    } else {
        match PropertyId::spec_from_u8(d[pos as int]) {
            None => Err(Fault::Invalid),
            Some(id) => match spec_decode_value(d, pos + 1, end, id) {
                Err(e) => Err(e),
                Ok((v, p)) => {
                    proof {
                        lemma_decode_value_advances(d, pos + 1, end, id);
                    }
                    spec_decode_items(d, p, end, acc.push((id, v)))
                },
            },
        }
    }
}

/// Decoding a property list from the front of `d`: the properties and the
/// bytes they take. Empty input means no properties and no bytes.
pub open spec fn spec_decode_props(d: Seq<u8>) -> Result<(Seq<(PropertyId, PropertyValueView)>, nat), Fault> {
    if d.len() == 0 {
        Ok((Seq::empty(), 0))
    } else {
        match spec_decode_varint(d) {
            None => Err(Fault::RemainingLength),
            Some((plen, lb)) => if plen == 0 {
                Ok((Seq::empty(), lb))
            } else if d.len() < lb + plen {
                Err(Fault::Invalid)
            } else {
                match spec_decode_items(d, lb, lb + plen, Seq::empty()) {
                    Ok(items) => Ok((items, lb + plen)),
                    Err(e) => Err(e),
                }
            },
        }
    }
}

/// A decoded property block stays within the data.
pub proof fn lemma_decode_props_len(d: Seq<u8>)
    ensures
        spec_decode_props(d) matches Ok((_, n)) ==> n <= d.len(),
{
    crate::common::lemma_varint_decoded_len(d);
}

impl PropertyValue {
    /// Append the wire form of this value.
    fn encode_into(&self, buf: &mut Vec<u8>)
        ensures
            final(buf)@ == old(buf)@ + spec_encode_value(self@),
    {
        match self {
            PropertyValue::Byte(v) => {
                buf.push(*v);
                assert(buf@ =~= old(buf)@ + seq![*v]);
            },
            PropertyValue::TwoByteInteger(v) => push_u16_be(buf, *v),
            PropertyValue::FourByteInteger(v) => crate::common::push_u32_be(buf, *v),
            PropertyValue::VariableByteInteger(v) => {
                let e = encode_remaining_length(*v as usize);
                append_bytes(buf, e.as_slice());
            },
            PropertyValue::BinaryData(v) => {
                push_u16_be(buf, v.len() as u16);
                append_bytes(buf, v.as_slice());
                assert(buf@ =~= old(buf)@ + (spec_u16_be(v@.len() as u16) + v@));
            },
            PropertyValue::UTF8String(s) => push_string(buf, s.as_str()),
            PropertyValue::Pair(key, val) => {
                push_string(buf, key.as_str());
                push_string(buf, val.as_str());
                assert(buf@ =~= old(buf)@ + (spec_encode_string(key@) + spec_encode_string(val@)));
            },
        }
    }
}

impl Properties {
    /// Encode properties to bytes: their length, then each identifier and value.
    pub fn encode(&self) -> (out: Vec<u8>)
        ensures
            out@ == spec_encode_props(self@),
    {
        let ghost s = self@;
        let ghost f = |p: (PropertyId, PropertyValueView)| spec_encode_prop(p);
        let mut buf: Vec<u8> = Vec::new();
        let mut i: usize = 0;
        assert(s.take(0) =~= Seq::<(PropertyId, PropertyValueView)>::empty());
        while i < self.inner.len()
            invariant
                i <= self.inner.len(),
                s == self@,
                f == (|p: (PropertyId, PropertyValueView)| spec_encode_prop(p)),
                buf@ == concat_map(s.take(i as int), f),
            decreases self.inner.len() - i,
        {
            proof {
                assert(s.take(i + 1) =~= s.take(i as int).push(s[i as int]));
                lemma_concat_map_push(s.take(i as int), s[i as int], f);
            }
            let (id, value) = &self.inner[i];
            let ghost before = buf@;
            buf.push(id.to_u8());
            value.encode_into(&mut buf);
            assert(buf@ =~= before + spec_encode_prop(s[i as int]));
            i = i + 1;
        }
        assert(s.take(i as int) =~= s);
        // Prepend length
        let len = buf.len();
        let mut result = encode_remaining_length(len);
        append_bytes(&mut result, buf.as_slice());
        result
    }

    /// Decode properties from the front of `data`; returns them with the
    /// number of bytes their block takes.
    pub fn decode(data: &[u8]) -> (r: MqttResult<(Self, usize)>)
        ensures
            match r {
                Ok((p, n)) => spec_decode_props(data@) == Ok::<(Seq<(PropertyId, PropertyValueView)>, nat), Fault>(
                    (p@, n as nat),
                ),
                Err(e) => spec_decode_props(data@) == Err::<(Seq<(PropertyId, PropertyValueView)>, nat), Fault>(
                    e.fault(),
                ),
            },
    {
        if data.len() == 0 {
            return Ok((Properties::new(), 0));
        }

        let (props_len, len_bytes) = match decode_remaining_length(data) {
            Ok(x) => x,
            Err(e) => return Err(e),
        };
        proof {
            lemma_varint_decoded_bounds(data@);
        }
        if props_len == 0 {
            return Ok((Properties::new(), len_bytes));
        }

        if data.len() < len_bytes + props_len {
            return Err(invalid("Properties data truncated"));
        }

        let mut props = Properties::new();
        let mut pos = len_bytes;
        let end = len_bytes + props_len;

        while pos < end
            invariant
                end <= data.len(),
                data.len() > 0,
                props_len > 0,
                end == len_bytes + props_len,
                spec_decode_varint(data@) == Some((props_len as nat, len_bytes as nat)),
                spec_decode_items(data@, len_bytes as nat, end as nat, Seq::empty()) == spec_decode_items(
                    data@,
                    pos as nat,
                    end as nat,
                    props@,
                ),
                pos <= data.len(),
            decreases data.len() - pos,
        {
            let id_byte = data[pos];
            let id = match PropertyId::from_u8(id_byte) {
                Some(id) => id,
                None => return Err(invalid("Unknown property ID")),
            };
            let (value, p) = match decode_value(data, pos + 1, end, id) {
                Ok(x) => x,
                Err(e) => return Err(e),
            };
            proof {
                lemma_decode_value_advances(data@, (pos + 1) as nat, end as nat, id);
            }
            props.add(id, value);
            pos = p;
        }

        Ok((props, end))
    }
}

/// Decode one property value of identifier `id` at `pos`, within a property
/// block ending at `end`; returns it with the position after it.
fn decode_value(data: &[u8], pos: usize, end: usize, id: PropertyId) -> (r: MqttResult<(PropertyValue, usize)>)
    requires
        pos <= end <= data.len(),
    ensures
        match r {
            Ok((v, p)) => spec_decode_value(data@, pos as nat, end as nat, id) == Ok::<(PropertyValueView, nat), Fault>(
                (v@, p as nat),
            ),
            Err(e) => spec_decode_value(data@, pos as nat, end as nat, id) == Err::<(PropertyValueView, nat), Fault>(
                e.fault(),
            ),
        },
{
    match id {
        PropertyId::PayloadFormatIndicator | PropertyId::RequestProblemInformation
        | PropertyId::RequestResponseInformation | PropertyId::MaximumQoS
        | PropertyId::RetainAvailable | PropertyId::WildcardSubscriptionAvailable
        | PropertyId::SubscriptionIdentifierAvailable
        | PropertyId::SharedSubscriptionAvailable => {
            if pos >= end {
                return Err(invalid("Property data truncated"));
            }
            Ok((PropertyValue::Byte(data[pos]), pos + 1))
        },
        PropertyId::ServerKeepAlive | PropertyId::ReceiveMaximum | PropertyId::TopicAliasMaximum
        | PropertyId::TopicAlias => {
            if end - pos < 2 {
                return Err(invalid("Property data truncated"));
            }
            let v = read_u16_be(data[pos], data[pos + 1]);
            assert(v == be16(data@[pos as int], data@[pos + 1]) as u16);
            Ok((PropertyValue::TwoByteInteger(v), pos + 2))
        },
        PropertyId::MessageExpiryInterval | PropertyId::SessionExpiryInterval
        | PropertyId::WillDelayInterval | PropertyId::MaximumPacketSize => {
            if end - pos < 4 {
                return Err(invalid("Property data truncated"));
            }
            let v = crate::common::read_u32_be(data[pos], data[pos + 1], data[pos + 2], data[pos + 3]);
            assert(v == crate::common::be32(data@[pos as int], data@[pos + 1], data@[pos + 2], data@[pos + 3]) as u32);
            Ok((PropertyValue::FourByteInteger(v), pos + 4))
        },
        PropertyId::SubscriptionIdentifier => {
            let rest = &data[pos..data.len()];
            assert(rest@ == data@.subrange(pos as int, data.len() as int));
            let (v, consumed) = match decode_remaining_length(rest) {
                Ok(x) => x,
                Err(e) => return Err(e),
            };
            proof {
                lemma_varint_decoded_bounds(rest@);
                crate::common::lemma_varint_decoded_len(rest@);
            }
            Ok((PropertyValue::VariableByteInteger(v as u32), pos + consumed))
        },
        PropertyId::CorrelationData | PropertyId::AuthenticationData => {
            if end - pos < 2 {
                return Err(invalid("Property data truncated"));
            }
            let len = read_u16_be(data[pos], data[pos + 1]) as usize;
            if end - pos - 2 < len {
                return Err(invalid("Binary property truncated"));
            }
            let mut v: Vec<u8> = Vec::new();
            append_bytes(&mut v, &data[pos + 2..pos + 2 + len]);
            assert(v@ =~= data@.subrange(pos + 2, pos + 2 + len));
            Ok((PropertyValue::BinaryData(v), pos + 2 + len))
        },
        PropertyId::ContentType | PropertyId::ResponseTopic | PropertyId::AssignedClientIdentifier
        | PropertyId::AuthenticationMethod | PropertyId::ResponseInformation
        | PropertyId::ServerReference | PropertyId::ReasonString => {
            let (s, p) = match string_at(data, pos) {
                Ok(x) => x,
                Err(e) => return Err(e),
            };
            Ok((PropertyValue::UTF8String(s), p))
        },
        PropertyId::UserProperty => {
            let (key, p1) = match string_at(data, pos) {
                Ok(x) => x,
                Err(e) => return Err(e),
            };
            let (val, p2) = match string_at(data, p1) {
                Ok(x) => x,
                Err(e) => return Err(e),
            };
            Ok((PropertyValue::Pair(key, val), p2))
        },
    }
}

// ==================== decoding what was encoded ====================

/// A property whose value has the wire form its identifier calls for, and
/// fits it: a variable byte integer below 2^28, binary data and strings that
/// fit their 16-bit length prefixes.
pub open spec fn prop_well_formed(p: (PropertyId, PropertyValueView)) -> bool {
    match p.1 {
        PropertyValueView::Byte(_) => p.0.spec_kind() is Byte,
        PropertyValueView::TwoByteInteger(_) => p.0.spec_kind() is TwoByte,
        PropertyValueView::FourByteInteger(_) => p.0.spec_kind() is FourByte,
        PropertyValueView::VariableByteInteger(x) => p.0.spec_kind() is VarInt && x < 268435456,
        PropertyValueView::BinaryData(b) => p.0.spec_kind() is Binary && b.len() < 65536,
        PropertyValueView::UTF8String(t) => p.0.spec_kind() is Utf8 && fits_u16_string(t),
        PropertyValueView::Pair(k, v) => p.0.spec_kind() is Pair && fits_u16_string(k) && fits_u16_string(v),
    }
}

/// A property list the encoder writes so that decoding gives it back: every
/// property well formed, and the block shorter than 2^28 bytes.
pub open spec fn props_well_formed(ps: Seq<(PropertyId, PropertyValueView)>) -> bool {
    &&& forall|i: int| 0 <= i < ps.len() ==> prop_well_formed(#[trigger] ps[i])
    &&& spec_props_body(ps).len() < 268435456
}

#[verifier::spinoff_prover]
#[verifier::rlimit(40)]
proof fn lemma_value_roundtrip(pre: Seq<u8>, p: (PropertyId, PropertyValueView), post: Seq<u8>, end: nat)
    requires
        prop_well_formed(p),
        pre.len() + spec_encode_prop(p).len() <= end <= (pre + spec_encode_prop(p) + post).len(),
    ensures
        spec_decode_value(pre + spec_encode_prop(p) + post, pre.len() + 1, end, p.0) == Ok::<(PropertyValueView, nat), Fault>(
            (p.1, pre.len() + spec_encode_prop(p).len()),
        ),
{
    let d = pre + spec_encode_prop(p) + post;
    let pre1 = pre.push(p.0.spec_to_u8());
    let e = spec_encode_value(p.1);
    assert(d =~= pre1 + e + post);
    let k = pre1.len() as int;
    match p.1 {
        PropertyValueView::Byte(b) => {
            assert(d[k] == b);
        },
        PropertyValueView::TwoByteInteger(x) => {
            lemma_u16_be_roundtrip(x);
            assert(d[k] == e[0] && d[k + 1] == e[1]);
        },
        PropertyValueView::FourByteInteger(x) => {
            crate::common::lemma_u32_be_roundtrip(x);
            assert(d[k] == e[0] && d[k + 1] == e[1] && d[k + 2] == e[2] && d[k + 3] == e[3]);
        },
        PropertyValueView::VariableByteInteger(x) => {
            assert(d.subrange(k, d.len() as int) =~= spec_encode_varint(x as nat) + post);
            lemma_varint_roundtrip(x as nat, post);
        },
        PropertyValueView::BinaryData(b) => {
            lemma_u16_be_roundtrip(b.len() as u16);
            assert(d[k] == e[0] && d[k + 1] == e[1]);
            assert(d.subrange(k + 2, k + 2 + b.len()) =~= b);
        },
        PropertyValueView::UTF8String(t) => {
            lemma_string_at_concat(pre1, t, post);
        },
        PropertyValueView::Pair(key, v) => {
            assert(d =~= pre1 + spec_encode_string(key) + (spec_encode_string(v) + post));
            lemma_string_at_concat(pre1, key, spec_encode_string(v) + post);
            assert(d =~= (pre1 + spec_encode_string(key)) + spec_encode_string(v) + post);
            lemma_string_at_concat(pre1 + spec_encode_string(key), v, post);
        },
    }
}

#[verifier::spinoff_prover]
#[verifier::rlimit(40)]
proof fn lemma_items_roundtrip(
    pre: Seq<u8>,
    ps: Seq<(PropertyId, PropertyValueView)>,
    post: Seq<u8>,
    acc: Seq<(PropertyId, PropertyValueView)>,
)
    requires
        forall|i: int| 0 <= i < ps.len() ==> prop_well_formed(#[trigger] ps[i]),
    ensures
        spec_decode_items(
            pre + spec_props_body(ps) + post,
            pre.len(),
            pre.len() + spec_props_body(ps).len(),
            acc,
        ) == Ok::<Seq<(PropertyId, PropertyValueView)>, Fault>(acc + ps),
    decreases ps.len(),
{
    let f = |p: (PropertyId, PropertyValueView)| spec_encode_prop(p);
    let d = pre + spec_props_body(ps) + post;
    let end = pre.len() + spec_props_body(ps).len();
    if ps.len() == 0 {
        assert(acc + ps =~= acc);
    } else {
        let x = ps[0];
        let tail = concat_map(ps.drop_first(), f);
        assert(spec_props_body(ps) == spec_encode_prop(x) + tail);
        assert(d =~= pre + spec_encode_prop(x) + (tail + post));
        assert(prop_well_formed(ps[0]));
        lemma_value_roundtrip(pre, x, tail + post, end);
        assert(d[pre.len() as int] == x.0.spec_to_u8());
        PropertyId::lemma_spec_from_to(x.0);
        let pre2 = pre + spec_encode_prop(x);
        assert(d =~= pre2 + spec_props_body(ps.drop_first()) + post);
        assert forall|i: int| 0 <= i < ps.drop_first().len() implies prop_well_formed(
            #[trigger] ps.drop_first()[i],
        ) by {
            assert(ps.drop_first()[i] == ps[i + 1]);
        }
        lemma_items_roundtrip(pre2, ps.drop_first(), post, acc.push(x));
        assert(acc.push(x) + ps.drop_first() =~= acc + ps);
    }
}

proof fn lemma_props_body_empty(ps: Seq<(PropertyId, PropertyValueView)>)
    ensures
        spec_props_body(ps).len() == 0 ==> ps.len() == 0,
{
    if ps.len() > 0 {
        assert(spec_props_body(ps) == spec_encode_prop(ps[0]) + concat_map(
            ps.drop_first(),
            |p: (PropertyId, PropertyValueView)| spec_encode_prop(p),
        ));
    }
}

/// Decoding the bytes `encode` writes for a well-formed property list gives
/// that list back and consumes exactly its bytes, whatever follows.
pub proof fn lemma_props_roundtrip(ps: Seq<(PropertyId, PropertyValueView)>, rest: Seq<u8>)
    requires
        props_well_formed(ps),
    ensures
        spec_decode_props(spec_encode_props(ps) + rest) == Ok::<(Seq<(PropertyId, PropertyValueView)>, nat), Fault>(
            (ps, spec_encode_props(ps).len()),
        ),
{
    let body = spec_props_body(ps);
    let v = spec_encode_varint(body.len());
    let d = spec_encode_props(ps) + rest;
    assert(d =~= v + (body + rest));
    lemma_varint_roundtrip(body.len(), body + rest);
    lemma_props_body_empty(ps);
    if body.len() == 0 {
        assert(ps =~= Seq::<(PropertyId, PropertyValueView)>::empty());
    } else {
        assert(d =~= v + body + rest);
        lemma_items_roundtrip(v, ps, rest, Seq::empty());
        assert(Seq::<(PropertyId, PropertyValueView)>::empty() + ps =~= ps);
    }
}

} // verus!
