//! Types and encodings shared by MQTT 3.1.1 and 5.0: protocol versions, QoS,
//! packet types, topic filters and names, the variable-length integer used for
//! the remaining length, and length-prefixed UTF-8 strings.

use vstd::prelude::*;
use vstd::utf8::*;
use crate::text::{chars_of, char_vecs_view, split_chars, split_chars_exec, chars_eq, is_single_char, contains_char, trimmed, trim_whitespace, utf8_as_str};


verus! {

broadcast use vstd::utf8::encode_utf8_decode_utf8, vstd::utf8::encode_utf8_valid_utf8;

/// MQTT protocol version.
#[derive(Debug, Clone, Copy, PartialEq, Eq, Hash, Structural)]
pub enum ProtocolVersion {
    /// MQTT 3.1.1 (protocol level 4)
    V311,
    /// MQTT 5.0 (protocol level 5)
    V5,
}

impl ProtocolVersion {
    pub open spec fn spec_level(self) -> u8 {
        match self {
            ProtocolVersion::V311 => 4,
            ProtocolVersion::V5 => 5,
        }
    }

    /// Protocol level byte used in the CONNECT packet.
    pub fn level_byte(self) -> (b: u8)
        ensures
            b == self.spec_level(),
    {
        match self {
            ProtocolVersion::V311 => 4,
            ProtocolVersion::V5 => 5,
        }
    }

    /// Protocol name used in the CONNECT packet (the same for both versions).
    pub fn name_str(self) -> (s: &'static str)
        ensures
            s@ == "MQTT"@,
    {
        match self {
            ProtocolVersion::V311 => "MQTT",
            ProtocolVersion::V5 => "MQTT",
        }
    }
}

/// Quality of Service level.
#[derive(Debug, Clone, Copy, PartialEq, Eq, PartialOrd, Ord, Hash, Structural)]
pub enum QoS {
    /// At most once delivery (fire and forget).
    AtMostOnce,
    /// At least once delivery (acknowledged).
    AtLeastOnce,
    /// Exactly once delivery (handshake).
    ExactlyOnce,
}

impl QoS {
    pub open spec fn spec_to_u8(self) -> u8 {
        match self {
            QoS::AtMostOnce => 0,
            QoS::AtLeastOnce => 1,
            QoS::ExactlyOnce => 2,
        }
    }

    pub open spec fn spec_from_u8(value: u8) -> Option<QoS> {
        if value == 0 {
            Some(QoS::AtMostOnce)
        } else if value == 1 {
            Some(QoS::AtLeastOnce)
        } else if value == 2 {
            Some(QoS::ExactlyOnce)
        } else {
            None
        }
    }

    /// The QoS with the given wire value, if it is 0, 1 or 2.
    pub fn from_u8(value: u8) -> (r: Option<Self>)
        ensures
            r == Self::spec_from_u8(value),
    {
        match value {
            0 => Some(QoS::AtMostOnce),
            1 => Some(QoS::AtLeastOnce),
            2 => Some(QoS::ExactlyOnce),
            _ => None,
        }
    }

    /// The wire value of this QoS.
    pub fn to_u8(self) -> (v: u8)
        ensures
            v == self.spec_to_u8(),
    {
        match self {
            QoS::AtMostOnce => 0,
            QoS::AtLeastOnce => 1,
            QoS::ExactlyOnce => 2,
        }
    }

    /// A QoS's wire value names it again.
    pub proof fn lemma_spec_from_to(q: QoS)
        ensures
            Self::spec_from_u8(q.spec_to_u8()) == Some(q),
            q.spec_to_u8() <= 2,
            q.spec_to_u8() & 0x03 == q.spec_to_u8(),
    {
        assert(0u8 & 0x03u8 == 0u8 && 1u8 & 0x03u8 == 1u8 && 2u8 & 0x03u8 == 2u8) by (bit_vector);
    }

    pub open spec fn spec_display(self) -> Seq<char> {
        match self {
            QoS::AtMostOnce => "QoS0"@,
            QoS::AtLeastOnce => "QoS1"@,
            QoS::ExactlyOnce => "QoS2"@,
        }
    }

    /// The display form of this QoS: "QoS0", "QoS1" or "QoS2".
    pub fn to_string(&self) -> (s: String)
        ensures
            s@ == self.spec_display(),
    {
        match self {
            QoS::AtMostOnce => "QoS0".to_owned(),
            QoS::AtLeastOnce => "QoS1".to_owned(),
            QoS::ExactlyOnce => "QoS2".to_owned(),
        }
    }
}

/// Converting a QoS to its wire value and back gives the same QoS, and a wire
/// value that names a QoS is that QoS's value.
pub proof fn lemma_qos_wire_roundtrip(q: QoS, v: u8)
    ensures
        QoS::spec_from_u8(q.spec_to_u8()) == Some(q),
        QoS::spec_from_u8(v) matches Some(p) ==> p.spec_to_u8() == v,
        QoS::spec_from_u8(v) is Some <==> v <= 2,
{
}

/// MQTT control packet types.
#[derive(Debug, Clone, Copy, PartialEq, Eq, Hash, Structural)]
pub enum PacketType {
    Connect,
    ConnAck,
    Publish,
    PubAck,
    PubRec,
    PubRel,
    PubComp,
    Subscribe,
    SubAck,
    Unsubscribe,
    UnsubAck,
    PingReq,
    PingResp,
    Disconnect,
    Auth,
}

impl PacketType {
    /// The 4-bit packet type number (1 to 15).
    pub open spec fn spec_code(self) -> u8 {
        match self {
            PacketType::Connect => 1,
            PacketType::ConnAck => 2,
            PacketType::Publish => 3,
            PacketType::PubAck => 4,
            PacketType::PubRec => 5,
            PacketType::PubRel => 6,
            PacketType::PubComp => 7,
            PacketType::Subscribe => 8,
            PacketType::SubAck => 9,
            PacketType::Unsubscribe => 10,
            PacketType::UnsubAck => 11,
            PacketType::PingReq => 12,
            PacketType::PingResp => 13,
            PacketType::Disconnect => 14,
            PacketType::Auth => 15,
        }
    }

    pub open spec fn spec_from_code(code: u8) -> Option<PacketType> {
        if code == 1 {
            Some(PacketType::Connect)
        } else if code == 2 {
            Some(PacketType::ConnAck)
        } else if code == 3 {
            Some(PacketType::Publish)
        } else if code == 4 {
            Some(PacketType::PubAck)
        } else if code == 5 {
            Some(PacketType::PubRec)
        } else if code == 6 {
            Some(PacketType::PubRel)
        } else if code == 7 {
            Some(PacketType::PubComp)
        } else if code == 8 {
            Some(PacketType::Subscribe)
        } else if code == 9 {
            Some(PacketType::SubAck)
        } else if code == 10 {
            Some(PacketType::Unsubscribe)
        } else if code == 11 {
            Some(PacketType::UnsubAck)
        } else if code == 12 {
            Some(PacketType::PingReq)
        } else if code == 13 {
            Some(PacketType::PingResp)
        } else if code == 14 {
            Some(PacketType::Disconnect)
        } else if code == 15 {
            Some(PacketType::Auth)
        } else {
            None
        }
    }

    /// The packet type named by the high nibble of a fixed-header byte.
    pub open spec fn spec_from_u8(value: u8) -> Option<PacketType> {
        Self::spec_from_code(value / 16)
    }

    /// The fixed-header byte of this type with all flag bits clear.
    pub open spec fn spec_to_u8(self) -> u8 {
        (self.spec_code() * 16) as u8
    }

    /// The packet type in the high nibble of a fixed-header byte (`None` for 0).
    pub fn from_u8(value: u8) -> (r: Option<Self>)
        ensures
            r == Self::spec_from_u8(value),
    {
        assert(value >> 4 == value / 16) by (bit_vector);
        let code = value >> 4;
        match code {
            1 => Some(PacketType::Connect),
            2 => Some(PacketType::ConnAck),
            3 => Some(PacketType::Publish),
            4 => Some(PacketType::PubAck),
            5 => Some(PacketType::PubRec),
            6 => Some(PacketType::PubRel),
            7 => Some(PacketType::PubComp),
            8 => Some(PacketType::Subscribe),
            9 => Some(PacketType::SubAck),
            10 => Some(PacketType::Unsubscribe),
            11 => Some(PacketType::UnsubAck),
            12 => Some(PacketType::PingReq),
            13 => Some(PacketType::PingResp),
            14 => Some(PacketType::Disconnect),
            15 => Some(PacketType::Auth),
            _ => None,
        }
    }

    /// The fixed-header byte of this type with all flag bits clear.
    pub fn to_u8(self) -> (b: u8)
        ensures
            b == self.spec_to_u8(),
    {
        match self {
            PacketType::Connect => 0x10,
            PacketType::ConnAck => 0x20,
            PacketType::Publish => 0x30,
            PacketType::PubAck => 0x40,
            PacketType::PubRec => 0x50,
            PacketType::PubRel => 0x60,
            PacketType::PubComp => 0x70,
            PacketType::Subscribe => 0x80,
            PacketType::SubAck => 0x90,
            PacketType::Unsubscribe => 0xA0,
            PacketType::UnsubAck => 0xB0,
            PacketType::PingReq => 0xC0,
            PacketType::PingResp => 0xD0,
            PacketType::Disconnect => 0xE0,
            PacketType::Auth => 0xF0,
        }
    }

    pub open spec fn spec_has_packet_id(self) -> bool {
        match self {
            PacketType::PubAck | PacketType::PubRec | PacketType::PubRel | PacketType::PubComp
            | PacketType::Subscribe | PacketType::SubAck | PacketType::Unsubscribe
            | PacketType::UnsubAck => true,
            _ => false,
        }
    }

    /// Whether this packet type carries a packet identifier field.
    pub fn has_packet_id(self) -> (b: bool)
        ensures
            b == self.spec_has_packet_id(),
    {
        match self {
            PacketType::PubAck | PacketType::PubRec | PacketType::PubRel | PacketType::PubComp
            | PacketType::Subscribe | PacketType::SubAck | PacketType::Unsubscribe
            | PacketType::UnsubAck => true,
            _ => false,
        }
    }

    /// Whether this packet type is a control packet (anything but PUBLISH).
    pub fn is_control(self) -> (b: bool)
        ensures
            b == !(self is Publish),
    {
        !matches!(self, PacketType::Publish)
    }
}

/// The fixed-header byte of a packet type, with any flag bits in the low
/// nibble, names that packet type again.
pub proof fn lemma_packet_type_roundtrip(t: PacketType, flags: u8)
    requires
        flags < 16,
    ensures
        PacketType::spec_from_u8((t.spec_to_u8() + flags) as u8) == Some(t),
{
    assert((t.spec_code() * 16 + flags) / 16 == t.spec_code());
}


/// The levels of a topic name or filter: the pieces between '/' characters.
pub open spec fn topic_levels(s: Seq<char>) -> Seq<Seq<char>> {
    split_chars(s, '/')
}

/// Standard MQTT matching of topic levels `t` against filter levels `f`:
/// '+' matches exactly one level, '#' matches all remaining levels (none
/// included), and any other level must be equal.
pub open spec fn filter_levels_match(f: Seq<Seq<char>>, t: Seq<Seq<char>>) -> bool
    decreases f.len(),
{
    if f.len() == 0 {
        t.len() == 0
    } else if f[0] == seq!['#'] {
        true
    } else if t.len() == 0 {
        false
    } else if f[0] == seq!['+'] {
        filter_levels_match(f.drop_first(), t.drop_first())
    } else {
        f[0] == t[0] && filter_levels_match(f.drop_first(), t.drop_first())
    }
}

/// Whether filter levels `f` match topic levels `t`, checked level by level.
pub fn levels_match(f: &Vec<Vec<char>>, t: &Vec<Vec<char>>) -> (r: bool)
    ensures
        r == filter_levels_match(char_vecs_view(f@), char_vecs_view(t@)),
{
    let ghost fv = char_vecs_view(f@);
    let ghost tv = char_vecs_view(t@);
    let mut ti: usize = 0;
    let mut fi: usize = 0;
    assert(fv.skip(0) =~= fv);
    assert(tv.skip(0) =~= tv);
    while fi < f.len()
        invariant
            fv == char_vecs_view(f@),
            tv == char_vecs_view(t@),
            fv.len() == f.len(),
            tv.len() == t.len(),
            fi <= f.len(),
            ti == fi,
            ti <= t.len(),
            filter_levels_match(fv, tv) == filter_levels_match(fv.skip(fi as int), tv.skip(ti as int)),
        decreases f.len() - fi,
    {
        let seg = &f[fi];
        assert(fv.skip(fi as int)[0] == seg@);
        assert(fv.skip(fi as int).drop_first() =~= fv.skip(fi + 1));
        if is_single_char(seg.as_slice(), '#') {
            return true;
        }
        if ti >= t.len() {
            assert(tv.skip(ti as int).len() == 0);
            return false;
        }
        assert(tv.skip(ti as int)[0] == t@[ti as int]@);
        assert(tv.skip(ti as int).drop_first() =~= tv.skip(ti + 1));
        if is_single_char(seg.as_slice(), '+') {
            ti = ti + 1;
            fi = fi + 1;
            continue;
        }
        if !chars_eq(seg.as_slice(), t[ti].as_slice()) {
            return false;
        }
        ti = ti + 1;
        fi = fi + 1;
    }
    assert(fv.skip(fi as int).len() == 0);
    ti == t.len()
}

/// Topic filter for subscriptions.
#[derive(Debug, Clone, PartialEq, Eq, Hash)]
pub struct TopicFilter {
    /// Filter string (e.g. "sensor/+/temperature"), with surrounding whitespace removed.
    pub filter: String,
    /// The levels of the filter, split at '/'.
    segments: Vec<Vec<char>>,
    /// Whether the last level is '#'.
    has_multiwild: bool,
}

impl TopicFilter {
    /// The levels this filter matches with.
    pub closed spec fn levels(&self) -> Seq<Seq<char>> {
        char_vecs_view(self.segments@)
    }

    /// The filter string's characters.
    pub closed spec fn filter_chars(&self) -> Seq<char> {
        self.filter@
    }

    /// Whether the filter's last level is the multi-level wildcard '#'.
    pub closed spec fn spec_has_multiwild(&self) -> bool {
        self.has_multiwild
    }

    /// A filter from its string form, with surrounding whitespace removed.
    pub fn new(filter: &str) -> (tf: Self)
        ensures
            tf.filter_chars() == trimmed(filter@),
            tf.levels() == topic_levels(trimmed(filter@)),
            tf.spec_has_multiwild() == (topic_levels(trimmed(filter@)).last() == seq!['#']),
    {
        let trimmed_str = trim_whitespace(filter);
        let chars = chars_of(trimmed_str);
        let segments = split_chars_exec(chars.as_slice(), '/');
        proof {
            crate::text::lemma_split_chars_nonempty(chars@, '/');
        }
        let n = segments.len();
        let has_multiwild = is_single_char(segments[n - 1].as_slice(), '#');
        TopicFilter { filter: trimmed_str.to_owned(), segments, has_multiwild }
    }

    /// Whether `topic` matches this filter.
    pub fn matches(&self, topic: &str) -> (r: bool)
        ensures
            r == filter_levels_match(self.levels(), topic_levels(topic@)),
    {
        let chars = chars_of(topic);
        let topic_segs = split_chars_exec(chars.as_slice(), '/');
        levels_match(&self.segments, &topic_segs)
    }

    /// The filter string.
    pub fn as_str(&self) -> (s: &str)
        ensures
            s@ == self.filter_chars(),
    {
        self.filter.as_str()
    }
}

/// A topic name (for publishing).
#[derive(Debug, Clone, PartialEq, Eq, Hash)]
pub struct TopicName {
    pub name: String,
}

impl TopicName {
    pub fn new(name: &str) -> (t: Self)
        ensures
            t.name@ == name@,
    {
        TopicName { name: name.to_owned() }
    }

    pub fn as_str(&self) -> (s: &str)
        ensures
            s@ == self.name@,
    {
        self.name.as_str()
    }

    /// A valid topic name is non-empty and holds no wildcard character.
    pub fn is_valid(&self) -> (b: bool)
        ensures
            b == (self.name@.len() > 0 && !self.name@.contains('+') && !self.name@.contains('#')),
    {
        let chars = chars_of(self.name.as_str());
        if chars.len() == 0 {
            return false;
        }
        if contains_char(chars.as_slice(), '+') || contains_char(chars.as_slice(), '#') {
            return false;
        }
        true
    }
}

/// `std::io::Error`, carried by `MqttError::Io`.
#[verifier::external_type_specification]
#[verifier::external_body]
pub struct ExIoError(std::io::Error);

/// Error type for MQTT operations.
#[derive(Debug)]
pub enum MqttError {
    InvalidPacket(String),
    ProtocolViolation(String),
    Io(std::io::Error),
    UnsupportedVersion(u8),
    MalformedRemainingLength,
    PacketTooLarge(usize),
    InvalidUtf8,
    Codec(String),
    AuthFailed(String),
}

/// The kind of an `MqttError`, without its message: what the codec contracts
/// speak of.
#[derive(Debug, Clone, Copy, PartialEq, Eq)]
pub enum Fault {
    Invalid,
    Violation,
    Io,
    Version(u8),
    RemainingLength,
    TooLarge(usize),
    Utf8,
    Codec,
    Auth,
}

impl MqttError {
    pub open spec fn fault(&self) -> Fault {
        match self {
            MqttError::InvalidPacket(_) => Fault::Invalid,
            MqttError::ProtocolViolation(_) => Fault::Violation,
            MqttError::Io(_) => Fault::Io,
            MqttError::UnsupportedVersion(v) => Fault::Version(*v),
            MqttError::MalformedRemainingLength => Fault::RemainingLength,
            MqttError::PacketTooLarge(n) => Fault::TooLarge(*n),
            MqttError::InvalidUtf8 => Fault::Utf8,
            MqttError::Codec(_) => Fault::Codec,
            MqttError::AuthFailed(_) => Fault::Auth,
        }
    }
}

/// Result type for MQTT operations.
pub type MqttResult<T> = Result<T, MqttError>;

/// An `InvalidPacket` error with the given message.
pub fn invalid(msg: &str) -> (e: MqttError)
    ensures
        e.fault() == Fault::Invalid,
        e matches MqttError::InvalidPacket(m) && m@ == msg@,
{
    MqttError::InvalidPacket(msg.to_owned())
}

/// Maximum remaining length bytes (4 bytes, 28 bits)
pub const MAX_REMAINING_LENGTH_BYTES: usize = 4;
/// Maximum packet size (256 MB)
pub const MAX_PACKET_SIZE: usize = 268435456;
/// Default max packet size for broker (10 MB)
pub const DEFAULT_MAX_PACKET_SIZE: usize = 10485760;

/// The MQTT variable byte integer encoding of `n`: seven bits per byte, least
/// significant group first, the high bit set on every byte but the last.
pub open spec fn spec_encode_varint(n: nat) -> Seq<u8>
    decreases n,
{
    if n < 128 {
        seq![n as u8]
    } else {
        seq![((n % 128) + 128) as u8] + spec_encode_varint(n / 128)
    }
}

pub open spec fn pow128(e: nat) -> nat
    decreases e,
{
    if e == 0 {
        1
    } else {
        128 * pow128((e - 1) as nat)
    }
}

/// The index of the first byte at or after `i` without the continuation bit,
/// if it lies among the first four bytes.
pub open spec fn varint_terminator(buf: Seq<u8>, i: nat) -> Option<nat>
    decreases 4 - i,
{
    if i >= 4 || i >= buf.len() {
        None
    } else if buf[i as int] < 128 {
        Some(i)
    } else {
        varint_terminator(buf, i + 1)
    }
}

/// The value of the first `n` bytes read as variable byte integer groups.
pub open spec fn varint_value(buf: Seq<u8>, n: nat) -> nat
    decreases n,
{
    if n == 0 {
        0
    } else {
        varint_value(buf, (n - 1) as nat) + ((buf[n - 1] % 128) as nat) * pow128((n - 1) as nat)
    }
}

/// Decoding a variable byte integer: its value and the number of bytes it
/// takes, or `None` when no byte among the first four ends it.
pub open spec fn spec_decode_varint(buf: Seq<u8>) -> Option<(nat, nat)> {
    match varint_terminator(buf, 0) {
        Some(k) => Some((varint_value(buf, k + 1), k + 1)),
        None => None,
    }
}

proof fn lemma_low7(x: usize)
    ensures
        x & 0x7F == x % 128,
        x >> 7 == x / 128,
        (x & 0x7F) < 128,
{
    assert(x & 0x7F == x % 128) by (bit_vector);
    assert(x >> 7 == x / 128) by (bit_vector);
    assert((x & 0x7F) < 128) by (bit_vector);
}

proof fn lemma_set_high(b: u8)
    requires
        b < 128,
    ensures
        b | 0x80 == b + 128,
{
    assert(b < 128 ==> b | 0x80 == b + 128) by (bit_vector);
}

/// Encode a length using the MQTT variable byte integer encoding.
pub fn encode_remaining_length(len: usize) -> (encoded: Vec<u8>)
    ensures
        encoded@ == spec_encode_varint(len as nat),
{
    let mut length = len;
    let ghost orig = len;
    let mut encoded: Vec<u8> = Vec::new();
    loop
        invariant_except_break
            encoded@ + spec_encode_varint(length as nat) == spec_encode_varint(orig as nat),
        ensures
            encoded@ == spec_encode_varint(orig as nat),
        decreases length,
    {
        proof {
            lemma_low7(length);
        }
        let mut byte = (length & 0x7F) as u8;
        let ghost before = length;
        length = length >> 7;
        if length > 0 {
            proof {
                lemma_set_high(byte);
            }
            byte = byte | 0x80;
        }
        let ghost prev = encoded@;
        encoded.push(byte);
        if length == 0 {
            assert(encoded@ =~= spec_encode_varint(orig as nat));
            break;
        }
        assert(spec_encode_varint(before as nat) == seq![byte] + spec_encode_varint(length as nat));
        assert(encoded@ + spec_encode_varint(length as nat) =~= prev + spec_encode_varint(before as nat));
    }
    encoded
}

proof fn lemma_terminator_skip(buf: Seq<u8>, i: nat)
    requires
        i <= 4,
        forall|j: int| 0 <= j < i ==> buf[j] >= 128,
        i <= buf.len(),
    ensures
        varint_terminator(buf, 0) == varint_terminator(buf, i),
    decreases i,
{
    if i > 0 {
        lemma_terminator_skip(buf, (i - 1) as nat);
    }
}

/// Decode an MQTT variable byte integer; returns (value, bytes consumed).
pub fn decode_remaining_length(buf: &[u8]) -> (r: MqttResult<(usize, usize)>)
    ensures
        match r {
            Ok((v, c)) => spec_decode_varint(buf@) == Some((v as nat, c as nat)),
            Err(e) => spec_decode_varint(buf@) is None && e.fault() == Fault::RemainingLength,
        },
{
    let mut value: usize = 0;
    let mut multiplier: usize = 1;
    let mut i: usize = 0;
    assert(pow128(0) == 1);
    while i < buf.len()
        invariant
            i <= buf.len(),
            i <= 4,
            multiplier == pow128(i as nat),
            value == varint_value(buf@, i as nat),
            value < pow128(i as nat),
            forall|j: int| 0 <= j < i ==> buf@[j] >= 128,
        decreases buf.len() - i,
    {
        let byte = buf[i];
        let consumed = i + 1;
        proof {
            lemma_terminator_skip(buf@, i as nat);
        }
        if consumed > MAX_REMAINING_LENGTH_BYTES {
            return Err(MqttError::MalformedRemainingLength);
        }
        proof {
            reveal_with_fuel(pow128, 5);
            assert(multiplier <= 2097152);
            lemma_low7(byte as usize);
            assert(byte as usize & 0x7F == byte % 128);
        }
        let low = byte as usize & 0x7F;
        assert(low * multiplier <= 127 * multiplier) by (nonlinear_arith)
            requires
                low < 128,
        ;
        value = value + low * multiplier;
        assert(value == varint_value(buf@, (i + 1) as nat));
        multiplier = multiplier * 128;
        assert(byte & 0x80 == 0 <==> byte < 128) by (bit_vector);
        if byte & 0x80 == 0 {
            assert(varint_terminator(buf@, i as nat) == Some(i as nat));
            return Ok((value, consumed));
        }
        i = i + 1;
    }
    proof {
        lemma_terminator_skip(buf@, i as nat);
    }
    Err(MqttError::MalformedRemainingLength)
}

proof fn lemma_varint_value_cons(b: u8, r: Seq<u8>, m: nat)
    requires
        m <= r.len(),
    ensures
        varint_value(seq![b] + r, m + 1) == (b % 128) as nat + 128 * varint_value(r, m),
    decreases m,
{
    let c = seq![b] + r;
    if m == 0 {
        assert(c[0] == b);
        assert(pow128(0) == 1);
        assert(varint_value(c, 1) == varint_value(c, 0) + ((c[0] % 128) as nat) * pow128(0));
        assert(varint_value(r, 0) == 0);
    } else {
        lemma_varint_value_cons(b, r, (m - 1) as nat);
        assert(c[m as int] == r[m - 1]);
        let x = (r[m - 1] % 128) as nat;
        let p = pow128((m - 1) as nat);
        assert(pow128(m) == 128 * p);
        assert(varint_value(c, m + 1) == varint_value(c, m) + x * pow128(m));
        assert(varint_value(r, m) == varint_value(r, (m - 1) as nat) + x * p);
        assert(x * (128 * p) == 128 * (x * p)) by (nonlinear_arith);
    }
}

proof fn lemma_encode_varint_shape(n: nat, k: nat)
    requires
        k >= 1,
        n < pow128(k),
    ensures
        spec_encode_varint(n).len() >= 1,
        spec_encode_varint(n).len() <= k,
        spec_encode_varint(n).last() < 128,
        forall|j: int| 0 <= j < spec_encode_varint(n).len() - 1 ==> spec_encode_varint(n)[j] >= 128,
        varint_value(spec_encode_varint(n), spec_encode_varint(n).len()) == n,
    decreases n,
{
    let s = spec_encode_varint(n);
    if n < 128 {
        assert(pow128(0) == 1);
        assert(varint_value(s, 1) == varint_value(s, 0) + ((s[0] % 128) as nat) * pow128(0));
    } else {
        let r = spec_encode_varint(n / 128);
        assert(k >= 2) by {
            if k == 1 {
                assert(pow128(1) == 128) by {
                    reveal_with_fuel(pow128, 2);
                }
            }
        }
        assert(n / 128 < pow128((k - 1) as nat));
        lemma_encode_varint_shape(n / 128, (k - 1) as nat);
        let b = ((n % 128) + 128) as u8;
        assert(s == seq![b] + r);
        lemma_varint_value_cons(b, r, r.len());
        assert(s.len() == r.len() + 1);
        assert forall|j: int| 0 <= j < s.len() - 1 implies s[j] >= 128 by {
            if j > 0 {
                assert(s[j] == r[j - 1]);
            }
        }
    }
}

/// Decoding the encoding of any length below 2^28 gives that length back,
/// having consumed exactly its encoding, whatever bytes follow.
pub proof fn lemma_varint_roundtrip(n: nat, rest: Seq<u8>)
    requires
        n < 268435456,
    ensures
        spec_encode_varint(n).len() <= 4,
        spec_decode_varint(spec_encode_varint(n) + rest) == Some((n, spec_encode_varint(n).len())),
{
    assert(pow128(4) == 268435456) by {
        reveal_with_fuel(pow128, 5);
    }
    lemma_encode_varint_shape(n, 4);
    let s = spec_encode_varint(n);
    let buf = s + rest;
    let k = (s.len() - 1) as nat;
    assert forall|j: int| 0 <= j < k implies buf[j] >= 128 by {
        assert(buf[j] == s[j]);
    }
    lemma_terminator_skip(buf, k);
    assert(buf[k as int] == s.last());
    assert(varint_terminator(buf, k) == Some(k));
    assert forall|m: nat| m <= s.len() implies varint_value(buf, m) == varint_value(s, m) by {
        lemma_varint_value_prefix(s, rest, m);
    }
}

proof fn lemma_varint_value_prefix(s: Seq<u8>, rest: Seq<u8>, m: nat)
    requires
        m <= s.len(),
    ensures
        varint_value(s + rest, m) == varint_value(s, m),
    decreases m,
{
    if m > 0 {
        lemma_varint_value_prefix(s, rest, (m - 1) as nat);
        assert((s + rest)[m - 1] == s[m - 1]);
    }
}

/// A decoded variable byte integer is below 2^28 and takes one to four bytes.
pub proof fn lemma_varint_decoded_bounds(buf: Seq<u8>)
    ensures
        spec_decode_varint(buf) matches Some((v, n)) ==> v < 268435456 && 1 <= n <= 4,
{
    if let Some((v, n)) = spec_decode_varint(buf) {
        let k = (n - 1) as nat;
        lemma_terminator_bound(buf, 0);
        lemma_varint_value_bound(buf, n);
        assert(pow128(4) == 268435456) by {
            reveal_with_fuel(pow128, 5);
        }
        lemma_pow128_mono(n, 4);
    }
}

proof fn lemma_terminator_bound(buf: Seq<u8>, i: nat)
    ensures
        varint_terminator(buf, i) matches Some(k) ==> i <= k < 4,
    decreases 4 - i,
{
    if i < 4 && i < buf.len() && buf[i as int] >= 128 {
        lemma_terminator_bound(buf, i + 1);
    }
}

proof fn lemma_varint_value_bound(buf: Seq<u8>, n: nat)
    ensures
        varint_value(buf, n) < pow128(n),
    decreases n,
{
    if n > 0 {
        lemma_varint_value_bound(buf, (n - 1) as nat);
        let x = (buf[n - 1] % 128) as nat;
        let p = pow128((n - 1) as nat);
        assert(x * p <= 127 * p) by (nonlinear_arith)
            requires
                x <= 127,
        ;
    }
}

proof fn lemma_pow128_mono(a: nat, b: nat)
    requires
        a <= b,
    ensures
        pow128(a) <= pow128(b),
    decreases b,
{
    if a < b {
        lemma_pow128_mono(a, (b - 1) as nat);
    }
}

/// A decoded variable byte integer takes no more bytes than there are.
pub proof fn lemma_varint_decoded_len(buf: Seq<u8>)
    ensures
        spec_decode_varint(buf) matches Some((v, n)) ==> n <= buf.len(),
{
    lemma_terminator_within(buf, 0);
}

proof fn lemma_terminator_within(buf: Seq<u8>, i: nat)
    ensures
        varint_terminator(buf, i) matches Some(k) ==> k < buf.len(),
    decreases 4 - i,
{
    if i < 4 && i < buf.len() && buf[i as int] >= 128 {
        lemma_terminator_within(buf, i + 1);
    }
}

/// The wire form of an MQTT string: its UTF-8 byte length as two big-endian
/// bytes (the low 16 bits of the length), then the UTF-8 bytes.
pub open spec fn spec_encode_string(s: Seq<char>) -> Seq<u8> {
    let b = encode_utf8(s);
    seq![((b.len() / 256) % 256) as u8, (b.len() % 256) as u8] + b
}

/// Big-endian two-byte number.
pub open spec fn be16(hi: u8, lo: u8) -> nat {
    (hi as nat) * 256 + lo as nat
}

proof fn lemma_u16_bytes(len: usize)
    ensures
        ((len >> 8) as u8) == ((len / 256) % 256) as u8,
        ((len & 0xFF) as u8) == (len % 256) as u8,
{
    assert(((len >> 8) as u8) == ((len / 256) % 256) as u8) by (bit_vector);
    assert(((len & 0xFF) as u8) == (len % 256) as u8) by (bit_vector);
}

/// Encode a UTF-8 string with its two-byte length prefix.
pub fn encode_string(s: &str) -> (out: Vec<u8>)
    ensures
        out@ == spec_encode_string(s@),
{
    let bytes = s.as_bytes();
    let len = bytes.len();
    let mut out: Vec<u8> = Vec::new();
    proof {
        lemma_u16_bytes(len);
    }
    out.push((len >> 8) as u8);
    out.push((len & 0xFF) as u8);
    out.extend_from_slice(bytes);
    assert(out@ =~= spec_encode_string(s@));
    out
}

/// What decoding a length-prefixed string from the front of `buf` gives: the
/// characters and the bytes taken, or the error kind.
pub open spec fn spec_decode_string(buf: Seq<u8>) -> Result<(Seq<char>, nat), Fault> {
    if buf.len() < 2 {
        Err(Fault::Invalid)
    } else {
        let len = be16(buf[0], buf[1]);
        if buf.len() < 2 + len {
            Err(Fault::Invalid)
        } else if !valid_utf8(buf.subrange(2, 2 + len as int)) {
            Err(Fault::Utf8)
        } else {
            Ok((decode_utf8(buf.subrange(2, 2 + len as int)), 2 + len))
        }
    }
}

/// Decode a length-prefixed UTF-8 string; returns the string and the bytes consumed.
pub fn decode_string(buf: &[u8]) -> (r: MqttResult<(&str, usize)>)
    ensures
        match r {
            Ok((s, c)) => spec_decode_string(buf@) == Ok::<(Seq<char>, nat), Fault>((s@, c as nat)),
            Err(e) => spec_decode_string(buf@) == Err::<(Seq<char>, nat), Fault>(e.fault()),
        },
{
    if buf.len() < 2 {
        return Err(invalid("Insufficient data for string length"));
    }
    let hi = buf[0] as usize;
    let lo = buf[1] as usize;
    assert((hi << 8) | lo == hi * 256 + lo) by (bit_vector)
        requires
            hi < 256,
            lo < 256,
    ;
    let len = (hi << 8) | lo;
    if buf.len() < 2 + len {
        return Err(invalid("Insufficient data for string"));
    }
    match utf8_as_str(&buf[2..2 + len]) {
        Some(s) => Ok((s, 2 + len)),
        None => Err(MqttError::InvalidUtf8),
    }
}

/// Decoding the encoding of a string whose UTF-8 form fits in 16 bits gives
/// the string back, having consumed exactly the encoding, whatever follows it.
pub proof fn lemma_string_roundtrip(s: Seq<char>, rest: Seq<u8>)
    requires
        encode_utf8(s).len() < 65536,
    ensures
        spec_decode_string(spec_encode_string(s) + rest) == Ok::<(Seq<char>, nat), Fault>(
            (s, spec_encode_string(s).len()),
        ),
{
    let b = encode_utf8(s);
    let buf = spec_encode_string(s) + rest;
    assert(be16(buf[0], buf[1]) == b.len());
    assert(buf.subrange(2, 2 + b.len() as int) =~= b);
}


/// A 16-bit number as two big-endian bytes.
pub open spec fn spec_u16_be(v: u16) -> Seq<u8> {
    seq![(v / 256) as u8, (v % 256) as u8]
}

/// A framed packet: the fixed-header byte, the remaining length, the body.
pub open spec fn spec_frame(first: u8, body: Seq<u8>) -> Seq<u8> {
    seq![first] + spec_encode_varint(body.len()) + body
}

/// Append the bytes of `s`.
pub fn append_bytes(v: &mut Vec<u8>, s: &[u8])
    ensures
        final(v)@ == old(v)@ + s@,
{
    v.extend_from_slice(s);
    assert(v@ =~= old(v)@ + s@);
}

/// Append a 16-bit number as two big-endian bytes.
pub fn push_u16_be(v: &mut Vec<u8>, x: u16)
    ensures
        final(v)@ == old(v)@ + spec_u16_be(x),
{
    assert(((x >> 8) as u8) == ((x / 256) as u8) && ((x & 0xFF) as u8) == ((x % 256) as u8)) by (bit_vector);
    v.push((x >> 8) as u8);
    v.push((x & 0xFF) as u8);
    assert(v@ =~= old(v)@ + spec_u16_be(x));
}

/// Read a big-endian 16-bit number.
pub fn read_u16_be(hi: u8, lo: u8) -> (x: u16)
    ensures
        x as nat == be16(hi, lo),
{
    assert(((hi as u16) << 8) | (lo as u16) == (hi as u16) * 256 + (lo as u16)) by (bit_vector);
    ((hi as u16) << 8) | (lo as u16)
}

/// Frame a packet body behind its fixed-header byte and remaining length.
pub fn frame(first: u8, body: &[u8]) -> (out: Vec<u8>)
    ensures
        out@ == spec_frame(first, body@),
{
    let mut out: Vec<u8> = Vec::new();
    out.push(first);
    let len_bytes = encode_remaining_length(body.len());
    append_bytes(&mut out, len_bytes.as_slice());
    append_bytes(&mut out, body);
    assert(out@ =~= spec_frame(first, body@));
    out
}

/// A string's bytes with their two-byte length prefix, appended.
pub fn push_string(v: &mut Vec<u8>, s: &str)
    ensures
        final(v)@ == old(v)@ + spec_encode_string(s@),
{
    let e = encode_string(s);
    append_bytes(v, e.as_slice());
}

/// Decoding a length-prefixed string that starts at `pos` of `data`: the
/// string and the position just after it.
#[verifier::opaque]
pub open spec fn spec_string_at(data: Seq<u8>, pos: nat) -> Result<(Seq<char>, nat), Fault> {
    match spec_decode_string(data.subrange(pos as int, data.len() as int)) {
        Ok((s, c)) => Ok((s, pos + c)),
        Err(e) => Err(e),
    }
}

/// A decoded string takes at least its two length bytes and stays within the data.
pub proof fn lemma_string_at_advances(data: Seq<u8>, pos: nat)
    requires
        pos <= data.len(),
    ensures
        spec_string_at(data, pos) matches Ok((_, p)) ==> pos + 2 <= p <= data.len(),
{
    reveal(spec_string_at);
}

/// Decode the length-prefixed string at `pos`; returns it with the position after it.
pub fn string_at(data: &[u8], pos: usize) -> (r: MqttResult<(String, usize)>)
    requires
        pos <= data.len(),
    ensures
        match r {
            Ok((s, p)) => spec_string_at(data@, pos as nat) == Ok::<(Seq<char>, nat), Fault>((s@, p as nat))
                && pos + 2 <= p <= data.len(),
            Err(e) => spec_string_at(data@, pos as nat) == Err::<(Seq<char>, nat), Fault>(e.fault()),
        },
{
    reveal(spec_string_at);
    let rest = &data[pos..data.len()];
    assert(rest@ == data@.subrange(pos as int, data.len() as int));
    match decode_string(rest) {
        Ok((s, c)) => Ok((s.to_owned(), pos + c)),
        Err(e) => Err(e),
    }
}

/// Decoding length-prefixed binary data that starts at `pos`: the bytes and
/// the position just after them.
#[verifier::opaque]
pub open spec fn spec_binary_at(data: Seq<u8>, pos: nat) -> Result<(Seq<u8>, nat), Fault> {
    if pos + 2 > data.len() {
        Err(Fault::Invalid)
    } else {
        let n = be16(data[pos as int], data[pos as int + 1]);
        if pos + 2 + n > data.len() {
            Err(Fault::Invalid)
        } else {
            Ok((data.subrange(pos as int + 2, pos as int + 2 + n), pos + 2 + n))
        }
    }
}

/// Decode the length-prefixed binary data at `pos`; returns it with the position after it.
pub fn binary_at(data: &[u8], pos: usize) -> (r: MqttResult<(Vec<u8>, usize)>)
    requires
        pos <= data.len(),
    ensures
        match r {
            Ok((b, p)) => spec_binary_at(data@, pos as nat) == Ok::<(Seq<u8>, nat), Fault>((b@, p as nat))
                && p <= data.len(),
            Err(e) => spec_binary_at(data@, pos as nat) == Err::<(Seq<u8>, nat), Fault>(e.fault()),
        },
{
    reveal(spec_binary_at);
    if data.len() - pos < 2 {
        return Err(invalid("Missing binary data length"));
    }
    let n = read_u16_be(data[pos], data[pos + 1]) as usize;
    if data.len() - pos - 2 < n {
        return Err(invalid("Binary data truncated"));
    }
    let mut out: Vec<u8> = Vec::new();
    append_bytes(&mut out, &data[pos + 2..pos + 2 + n]);
    assert(out@ =~= data@.subrange(pos + 2, pos + 2 + n));
    Ok((out, pos + 2 + n))
}

/// The concatenation of `f` applied to each element, in order.
pub open spec fn concat_map<A>(s: Seq<A>, f: spec_fn(A) -> Seq<u8>) -> Seq<u8>
    decreases s.len(),
{
    if s.len() == 0 {
        Seq::empty()
    } else {
        f(s[0]) + concat_map(s.drop_first(), f)
    }
}

/// Appending an element appends its bytes.
pub proof fn lemma_concat_map_push<A>(s: Seq<A>, x: A, f: spec_fn(A) -> Seq<u8>)
    ensures
        concat_map(s.push(x), f) == concat_map(s, f) + f(x),
    decreases s.len(),
{
    if s.len() == 0 {
        assert(s.push(x).drop_first() =~= Seq::<A>::empty());
        assert(s.push(x)[0] == x);
        assert(concat_map(Seq::<A>::empty(), f) == Seq::<u8>::empty());
        assert(concat_map(s, f) == Seq::<u8>::empty());
        assert(concat_map(s.push(x), f) =~= f(x) + Seq::<u8>::empty());
    } else {
        lemma_concat_map_push(s.drop_first(), x, f);
        assert(s.push(x).drop_first() =~= s.drop_first().push(x));
        assert(s.push(x)[0] == s[0]);
        assert(concat_map(s.push(x), f) =~= concat_map(s, f) + f(x));
    }
}

/// A string whose UTF-8 form fits the 16-bit length prefix.
pub open spec fn fits_u16_string(s: Seq<char>) -> bool {
    encode_utf8(s).len() < 65536
}

/// Decoding at the start of an encoded string, whatever comes before or
/// after it, gives the string and the position after it.
pub proof fn lemma_string_at_concat(pre: Seq<u8>, s: Seq<char>, post: Seq<u8>)
    requires
        fits_u16_string(s),
    ensures
        spec_string_at(pre + spec_encode_string(s) + post, pre.len()) == Ok::<(Seq<char>, nat), Fault>(
            (s, pre.len() + spec_encode_string(s).len()),
        ),
{
    reveal(spec_string_at);
    let d = pre + spec_encode_string(s) + post;
    assert(d.subrange(pre.len() as int, d.len() as int) =~= spec_encode_string(s) + post);
    lemma_string_roundtrip(s, post);
}

/// Decoding at the start of length-prefixed binary data, whatever comes
/// before or after it, gives the data and the position after it.
pub proof fn lemma_binary_at_concat(pre: Seq<u8>, m: Seq<u8>, post: Seq<u8>)
    requires
        m.len() < 65536,
    ensures
        spec_binary_at(pre + spec_u16_be(m.len() as u16) + m + post, pre.len()) == Ok::<(Seq<u8>, nat), Fault>(
            (m, pre.len() + 2 + m.len()),
        ),
{
    reveal(spec_binary_at);
    let d = pre + spec_u16_be(m.len() as u16) + m + post;
    let k = pre.len() as int;
    assert(d[k] == spec_u16_be(m.len() as u16)[0]);
    assert(d[k + 1] == spec_u16_be(m.len() as u16)[1]);
    assert(be16(d[k], d[k + 1]) == m.len());
    assert(d.subrange(k + 2, k + 2 + m.len()) =~= m);
}

/// The two bytes of a 16-bit number read back as that number.
pub proof fn lemma_u16_be_roundtrip(v: u16)
    ensures
        be16(spec_u16_be(v)[0], spec_u16_be(v)[1]) == v,
        be16(spec_u16_be(v)[0], spec_u16_be(v)[1]) as u16 == v,
{
}

/// A 32-bit number as four big-endian bytes.
pub open spec fn spec_u32_be(v: u32) -> Seq<u8> {
    seq![(v / 16777216) as u8, ((v / 65536) % 256) as u8, ((v / 256) % 256) as u8, (v % 256) as u8]
}

/// Big-endian four-byte number.
pub open spec fn be32(a: u8, b: u8, c: u8, d: u8) -> nat {
    (a as nat) * 16777216 + (b as nat) * 65536 + (c as nat) * 256 + d as nat
}

/// Append a 32-bit number as four big-endian bytes.
pub fn push_u32_be(v: &mut Vec<u8>, x: u32)
    ensures
        final(v)@ == old(v)@ + spec_u32_be(x),
{
    v.push((x / 16777216) as u8);
    v.push(((x / 65536) % 256) as u8);
    v.push(((x / 256) % 256) as u8);
    v.push((x % 256) as u8);
    assert(v@ =~= old(v)@ + spec_u32_be(x));
}

/// Read a big-endian 32-bit number.
pub fn read_u32_be(a: u8, b: u8, c: u8, d: u8) -> (x: u32)
    ensures
        x as nat == be32(a, b, c, d),
{
    (a as u32) * 16777216 + (b as u32) * 65536 + (c as u32) * 256 + (d as u32)
}

/// The four bytes of a 32-bit number read back as that number.
pub proof fn lemma_u32_be_roundtrip(v: u32)
    ensures
        be32(spec_u32_be(v)[0], spec_u32_be(v)[1], spec_u32_be(v)[2], spec_u32_be(v)[3]) == v,
{
}

} // verus!
