//! Unified codec that detects the MQTT version and dispatches to the 3.1.1
//! or 5.0 codec, and the framing decision of a stream decoder.

use vstd::prelude::*;
use bytes::BytesMut;
use crate::common::{
    ProtocolVersion, PacketType, MqttError, MqttResult, Fault, invalid, spec_decode_varint,
    decode_remaining_length, DEFAULT_MAX_PACKET_SIZE, lemma_varint_decoded_bounds,
};
use crate::text::{buffer_bytes, buffer_as_slice, buffer_split_to};
use crate::v3;
use crate::v5;
use crate::v3::types::{MqttPacketV3, PacketV3View};
use crate::v5::types::{MqttPacketV5, PacketV5View};

verus! {

/// A decoded MQTT packet with its protocol version.
#[derive(Debug, Clone)]
pub enum MqttPacket {
    /// MQTT 3.1.1 packet.
    V311(MqttPacketV3),
    /// MQTT 5.0 packet.
    V5(MqttPacketV5),
}

/// What a packet of either version says.
pub enum MqttPacketView {
    V311(PacketV3View),
    V5(PacketV5View),
}

impl View for MqttPacket {
    type V = MqttPacketView;

    open spec fn view(&self) -> MqttPacketView {
        match self {
            MqttPacket::V311(p) => MqttPacketView::V311(p@),
            MqttPacket::V5(p) => MqttPacketView::V5(p@),
        }
    }
}

/// The control packet type of a packet.
pub open spec fn spec_packet_type(p: MqttPacketView) -> PacketType {
    match p {
        MqttPacketView::V311(q) => v3::codec::spec_v3_type(q),
        MqttPacketView::V5(q) => match q {
            PacketV5View::Connect(_) => PacketType::Connect,
            PacketV5View::ConnAck(_, _, _) => PacketType::ConnAck,
            PacketV5View::Publish(_) => PacketType::Publish,
            PacketV5View::PubAck(_) => PacketType::PubAck,
            PacketV5View::PubRec(_) => PacketType::PubRec,
            PacketV5View::PubRel(_) => PacketType::PubRel,
            PacketV5View::PubComp(_) => PacketType::PubComp,
            PacketV5View::Subscribe(_, _, _) => PacketType::Subscribe,
            PacketV5View::SubAck(_) => PacketType::SubAck,
            PacketV5View::Unsubscribe(_, _, _) => PacketType::Unsubscribe,
            PacketV5View::UnsubAck(_) => PacketType::UnsubAck,
            PacketV5View::PingReq => PacketType::PingReq,
            PacketV5View::PingResp => PacketType::PingResp,
            PacketV5View::Disconnect(_) => PacketType::Disconnect,
            PacketV5View::Auth(_) => PacketType::Auth,
        },
    }
}

impl MqttPacket {
    /// Get the protocol version.
    pub fn version(&self) -> (v: ProtocolVersion)
        ensures
            v == (match self@ {
                MqttPacketView::V311(_) => ProtocolVersion::V311,
                MqttPacketView::V5(_) => ProtocolVersion::V5,
            }),
    {
        match self {
            MqttPacket::V311(_) => ProtocolVersion::V311,
            MqttPacket::V5(_) => ProtocolVersion::V5,
        }
    }

    /// Get the packet type.
    pub fn packet_type(&self) -> (t: Option<PacketType>)
        ensures
            t == Some(spec_packet_type(self@)),
    {
        match self {
            MqttPacket::V311(p) => match p {
                MqttPacketV3::Connect(_) => Some(PacketType::Connect),
                MqttPacketV3::ConnAck(_) => Some(PacketType::ConnAck),
                MqttPacketV3::Publish(_) => Some(PacketType::Publish),
                MqttPacketV3::PubAck(_) => Some(PacketType::PubAck),
                MqttPacketV3::PubRec(_) => Some(PacketType::PubRec),
                MqttPacketV3::PubRel(_) => Some(PacketType::PubRel),
                MqttPacketV3::PubComp(_) => Some(PacketType::PubComp),
                MqttPacketV3::Subscribe(_) => Some(PacketType::Subscribe),
                MqttPacketV3::SubAck(_) => Some(PacketType::SubAck),
                MqttPacketV3::Unsubscribe(_) => Some(PacketType::Unsubscribe),
                MqttPacketV3::UnsubAck(_) => Some(PacketType::UnsubAck),
                MqttPacketV3::PingReq(_) => Some(PacketType::PingReq),
                MqttPacketV3::PingResp(_) => Some(PacketType::PingResp),
                MqttPacketV3::Disconnect(_) => Some(PacketType::Disconnect),
            },
            MqttPacket::V5(p) => match p {
                MqttPacketV5::Connect(_) => Some(PacketType::Connect),
                MqttPacketV5::ConnAck(_) => Some(PacketType::ConnAck),
                MqttPacketV5::Publish(_) => Some(PacketType::Publish),
                MqttPacketV5::PubAck(_) => Some(PacketType::PubAck),
                MqttPacketV5::PubRec(_) => Some(PacketType::PubRec),
                MqttPacketV5::PubRel(_) => Some(PacketType::PubRel),
                MqttPacketV5::PubComp(_) => Some(PacketType::PubComp),
                MqttPacketV5::Subscribe(_) => Some(PacketType::Subscribe),
                MqttPacketV5::SubAck(_) => Some(PacketType::SubAck),
                MqttPacketV5::Unsubscribe(_) => Some(PacketType::Unsubscribe),
                MqttPacketV5::UnsubAck(_) => Some(PacketType::UnsubAck),
                MqttPacketV5::PingReq(_) => Some(PacketType::PingReq),
                MqttPacketV5::PingResp(_) => Some(PacketType::PingResp),
                MqttPacketV5::Disconnect(_) => Some(PacketType::Disconnect),
                MqttPacketV5::Auth(_) => Some(PacketType::Auth),
            },
        }
    }
}

/// The wire form of a packet of either version.
pub open spec fn spec_encode(p: MqttPacketView) -> Seq<u8> {
    match p {
        MqttPacketView::V311(q) => v3::codec::spec_encode_v3(q),
        MqttPacketView::V5(q) => v5::codec::spec_encode_v5(q),
    }
}

/// Encode a MQTT packet (version-agnostic).
pub fn encode_packet(packet: &MqttPacket) -> (r: MqttResult<BytesMut>)
    ensures
        r matches Ok(b) && buffer_bytes(b) == spec_encode(packet@),
{
    match packet {
        MqttPacket::V311(p) => v3::codec::encode_packet(p),
        MqttPacket::V5(p) => v5::codec::encode_packet(p),
    }
}

/// The first byte of an encoded packet gives back the packet's type: what
/// `PacketType::from_u8` reads from the first byte `encode_packet` writes
/// is what `MqttPacket::packet_type` says.
pub proof fn lemma_first_byte_names_type(p: MqttPacketView)
    ensures
        spec_encode(p).len() > 0,
        PacketType::spec_from_u8(spec_encode(p)[0]) == Some(spec_packet_type(p)),
{
    match p {
        MqttPacketView::V311(q) => {
            v3::codec::lemma_v3_first_byte(q);
            assert(spec_encode(p)[0] == v3::codec::spec_v3_first_byte(q));
        },
        MqttPacketView::V5(q) => {
            v5::codec::lemma_v5_first_byte(q);
            assert(spec_encode(p)[0] == v5::codec::spec_v5_first_byte(q));
        },
    }
}

/// Protocol-agnostic codec that detects version automatically.
#[derive(Debug, Clone)]
pub struct MqttCodec {
    /// Maximum packet size allowed.
    max_packet_size: usize,
}

/// Decoding a CONNECT packet at the front of `buf`, its version read from the
/// protocol level byte (4 or 5; others are refused).
pub open spec fn spec_decode_connect_any(max: usize, buf: Seq<u8>) -> Result<Option<MqttPacketView>, Fault> {
    if buf.len() < 10 {
        Ok(None)
    } else {
        match spec_decode_varint(buf.subrange(1, buf.len() as int)) {
            None => Err(Fault::RemainingLength),
            Some((rem, lb)) => {
                let total = 1 + lb + rem;
                if buf.len() < 1 + lb {
                    Ok(None)
                } else if buf.len() < total {
                    Ok(None)
                } else if total > max {
                    Err(Fault::TooLarge(total as usize))
                } else if buf.len() - (1 + lb) < 7 {
                    Err(Fault::Invalid)
                } else {
                    let level = buf[1 + lb as int + 6];
                    if level == 4 {
                        match v3::codec::spec_decode_v3(buf) {
                            Err(e) => Err(e),
                            Ok(None) => Err(Fault::Invalid),
                            Ok(Some((p, _))) => Ok(Some(MqttPacketView::V311(p))),
                        }
                    } else if level == 5 {
                        match v5::codec::spec_decode_v5(buf) {
                            Err(e) => Err(e),
                            Ok(None) => Err(Fault::Invalid),
                            Ok(Some((p, _))) => Ok(Some(MqttPacketView::V5(p))),
                        }
                    } else {
                        Err(Fault::Version(level))
                    }
                }
            },
        }
    }
}

/// Decoding a packet at the front of `buf` without knowing the connection's
/// version: a CONNECT by its level byte; any other packet as 3.1.1 if that
/// decodes, `None` when the 3.1.1 decoder needs more data, else as 5.0 if
/// that decodes, else the 3.1.1 decoder's error.
pub open spec fn spec_codec_decode(max: usize, buf: Seq<u8>) -> Result<Option<MqttPacketView>, Fault> {
    if buf.len() == 0 {
        Ok(None)
    } else {
        match PacketType::spec_from_u8(buf[0]) {
            None => Err(Fault::Invalid),
            Some(t) => if t == PacketType::Connect {
                spec_decode_connect_any(max, buf)
            } else {
                match v3::codec::spec_decode_v3(buf) {
                    Ok(Some((p, _))) => Ok(Some(MqttPacketView::V311(p))),
                    Ok(None) => Ok(None),
                    Err(e) => match v5::codec::spec_decode_v5(buf) {
                        Ok(Some((p, _))) => Ok(Some(MqttPacketView::V5(p))),
                        _ => Err(e),
                    },
                }
            },
        }
    }
}

/// The framing decision of the stream decoder for the bytes `buf` holds:
/// `None` while the next frame is incomplete (or its length is unreadable),
/// an error when it exceeds `max`, else the frame's length.
pub open spec fn spec_frame_len(max: usize, buf: Seq<u8>) -> Result<Option<nat>, Fault> {
    if buf.len() < 2 {
        Ok(None)
    } else {
        match spec_decode_varint(buf.subrange(1, buf.len() as int)) {
            None => Ok(None),
            Some((rem, lb)) => {
                let total = 1 + lb + rem;
                if buf.len() < total {
                    Ok(None)
                } else if total > max {
                    Err(Fault::TooLarge(total as usize))
                } else {
                    Ok(Some(total))
                }
            },
        }
    }
}

impl MqttCodec {
    /// The largest packet this codec accepts.
    pub closed spec fn max_size(&self) -> usize {
        self.max_packet_size
    }

    pub fn new(max_packet_size: usize) -> (c: Self)
        ensures
            c.max_size() == max_packet_size,
    {
        MqttCodec { max_packet_size }
    }

    /// Decode a single MQTT packet from the front of a buffer, which it
    /// leaves as it was. Returns None if more data is needed.
    pub fn decode(&self, src: &mut BytesMut) -> (r: MqttResult<Option<MqttPacket>>)
        ensures
            *final(src) == *old(src),
            match r {
                Ok(Some(p)) => spec_codec_decode(self.max_size(), buffer_bytes(*old(src))) == Ok::<
                    Option<MqttPacketView>,
                    Fault,
                >(Some(p@)),
                Ok(None) => spec_codec_decode(self.max_size(), buffer_bytes(*old(src))) == Ok::<
                    Option<MqttPacketView>,
                    Fault,
                >(None),
                Err(e) => spec_codec_decode(self.max_size(), buffer_bytes(*old(src))) == Err::<
                    Option<MqttPacketView>,
                    Fault,
                >(e.fault()),
            },
    {
        let bytes = buffer_as_slice(src);
        if bytes.len() == 0 {
            return Ok(None);
        }

        // Peek at fixed header to determine the packet type
        let fixed_header = bytes[0];
        let packet_type = match PacketType::from_u8(fixed_header) {
            Some(t) => t,
            None => return Err(invalid("Unknown packet type")),
        };

        // For CONNECT packets, detect version from protocol level byte
        if packet_type == PacketType::Connect {
            return self.decode_connect(src);
        }

        // For all other packet types the version comes from the connection;
        // without it, try 3.1.1 first, then 5.0. `None` means only that the
        // frame is incomplete; a whole frame neither accepts is an error.
        let v3_error = match v3::codec::decode_packet(src) {
            Ok(Some((p, _sz))) => return Ok(Some(MqttPacket::V311(p))),
            Ok(None) => return Ok(None),
            Err(e) => e,
        };
        match v5::codec::decode_packet(src) {
            Ok(Some((p, _sz))) => Ok(Some(MqttPacket::V5(p))),
            _ => Err(v3_error),
        }
    }

    /// Decode a CONNECT packet, detecting the protocol version.
    fn decode_connect(&self, src: &BytesMut) -> (r: MqttResult<Option<MqttPacket>>)
        ensures
            match r {
                Ok(Some(p)) => spec_decode_connect_any(self.max_size(), buffer_bytes(*src)) == Ok::<
                    Option<MqttPacketView>,
                    Fault,
                >(Some(p@)),
                Ok(None) => spec_decode_connect_any(self.max_size(), buffer_bytes(*src)) == Ok::<
                    Option<MqttPacketView>,
                    Fault,
                >(None),
                Err(e) => spec_decode_connect_any(self.max_size(), buffer_bytes(*src)) == Err::<
                    Option<MqttPacketView>,
                    Fault,
                >(e.fault()),
            },
    {
        let bytes = buffer_as_slice(src);
        // Need at least: fixed header (1) + remaining length (1+) + protocol name (>=6) + level (1)
        if bytes.len() < 10 {
            return Ok(None);
        }

        let (remaining, len_bytes) = match decode_remaining_length(&bytes[1..bytes.len()]) {
            Ok(x) => x,
            Err(e) => return Err(e),
        };
        proof {
            lemma_varint_decoded_bounds(bytes@.subrange(1, bytes@.len() as int));
        }
        if bytes.len() < 1 + len_bytes {
            return Ok(None);
        }

        let total_len = 1 + len_bytes + remaining;
        if bytes.len() < total_len {
            return Ok(None);
        }

        if total_len > self.max_packet_size {
            return Err(MqttError::PacketTooLarge(total_len));
        }

        // Find protocol level byte (after protocol name string: 2+4 bytes for "MQTT")
        if bytes.len() - (1 + len_bytes) < 7 {
            return Err(invalid("CONNECT packet too short"));
        }

        let protocol_level = bytes[1 + len_bytes + 6];

        if protocol_level == 4 {
            match v3::codec::decode_packet(src) {
                Ok(Some((packet, _))) => Ok(Some(MqttPacket::V311(packet))),
                Ok(None) => Err(invalid("Failed to decode MQTT 3.1.1 CONNECT")),
                Err(e) => Err(e),
            }
        } else if protocol_level == 5 {
            match v5::codec::decode_packet(src) {
                Ok(Some((packet, _))) => Ok(Some(MqttPacket::V5(packet))),
                Ok(None) => Err(invalid("Failed to decode MQTT 5.0 CONNECT")),
                Err(e) => Err(e),
            }
        } else {
            Err(MqttError::UnsupportedVersion(protocol_level))
        }
    }
}

impl Default for MqttCodec {
    fn default() -> (c: Self)
        ensures
            c.max_size() == DEFAULT_MAX_PACKET_SIZE,
    {
        MqttCodec { max_packet_size: DEFAULT_MAX_PACKET_SIZE }
    }
}

/// Stream codec for MQTT protocol framing: splits the next whole frame off a
/// buffer and decodes it.
pub struct MqttFramedCodec {
    inner: MqttCodec,
}

impl MqttFramedCodec {
    /// The largest frame this codec accepts.
    pub closed spec fn max_size(&self) -> usize {
        self.inner.max_size()
    }

    pub fn new(max_packet_size: usize) -> (c: Self)
        ensures
            c.max_size() == max_packet_size,
    {
        MqttFramedCodec { inner: MqttCodec::new(max_packet_size) }
    }

    /// Take the next frame off the front of `src` and decode it. The buffer
    /// loses exactly that frame's bytes when a frame is complete, and is
    /// left as it was otherwise.
    pub fn decode_frame(&mut self, src: &mut BytesMut) -> (r: MqttResult<Option<MqttPacket>>)
        ensures
            *final(self) == *old(self),
            match spec_frame_len(old(self).max_size(), buffer_bytes(*old(src))) {
                Ok(Some(n)) => {
                    &&& buffer_bytes(*final(src)) == buffer_bytes(*old(src)).skip(n as int)
                    &&& match r {
                        Ok(Some(p)) => spec_codec_decode(
                            old(self).max_size(),
                            buffer_bytes(*old(src)).take(n as int),
                        ) == Ok::<Option<MqttPacketView>, Fault>(Some(p@)),
                        Ok(None) => spec_codec_decode(old(self).max_size(), buffer_bytes(*old(src)).take(n as int))
                            == Ok::<Option<MqttPacketView>, Fault>(None),
                        Err(e) => spec_codec_decode(old(self).max_size(), buffer_bytes(*old(src)).take(n as int))
                            == Err::<Option<MqttPacketView>, Fault>(e.fault()),
                    }
                },
                Ok(None) => *final(src) == *old(src) && r matches Ok(None),
                Err(f) => *final(src) == *old(src) && (r matches Err(e) && e.fault() == f),
            },
    {
        let bytes = buffer_as_slice(src);
        if bytes.len() < 2 {
            return Ok(None);
        }

        let (remaining_len, len_bytes) = match decode_remaining_length(&bytes[1..bytes.len()]) {
            Ok(x) => x,
            Err(_) => return Ok(None),  // Need more data
        };
        proof {
            lemma_varint_decoded_bounds(bytes@.subrange(1, bytes@.len() as int));
        }

        let total_len = 1 + len_bytes + remaining_len;
        if bytes.len() < total_len {
            // Need more data
            return Ok(None);
        }

        if total_len > self.inner.max_packet_size {
            return Err(MqttError::PacketTooLarge(total_len));
        }

        // Take the bytes for this frame, then decode it
        let mut frame = buffer_split_to(src, total_len);
        self.inner.decode(&mut frame)
    }
}

impl Default for MqttFramedCodec {
    fn default() -> (c: Self)
        ensures
            c.max_size() == DEFAULT_MAX_PACKET_SIZE,
    {
        MqttFramedCodec { inner: MqttCodec::default() }
    }
}

} // verus!
