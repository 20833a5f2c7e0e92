//! The command-line test client's decisions: the words of a shell line, the
//! command they give, the packet identifiers of its requests, the packets it
//! sends and how it answers what the broker sends.

use vstd::prelude::*;
use vstd::utf8::*;
use crate::common::QoS;
use crate::text::{char_vecs_view, chars_eq, chars_of, string_from_chars, white_space};
use crate::v3::types::{
    ConnAckPacket, ConnectPacket, ConnectReturnCode, ConnectView, MqttPacketV3, PacketV3View,
    PubAckPacket, PublishPacket, PublishView, SubscribeFilter, SubscribeFilterView,
    SubscribePacket, UnsubscribePacket,
};

verus! {

// ---------------------------------------------------------------------------
// Words of a line
// ---------------------------------------------------------------------------

/// Whether `c` has Unicode's White_Space property, as `char::is_whitespace`
/// tests it.
fn is_white_space(c: char) -> (b: bool)
    ensures
        b == white_space(c),
{
    let n = c as u32;
    (9 <= n && n <= 13) || n == 0x20 || n == 0x85 || n == 0xA0 || n == 0x1680 || (0x2000 <= n && n <= 0x200A)
        || n == 0x2028 || n == 0x2029 || n == 0x202F || n == 0x205F || n == 0x3000
}

/// The words of a text as `str::split_whitespace` gives them: the maximal
/// runs of characters that are not whitespace, in order.
pub open spec fn ws_words(s: Seq<char>) -> Seq<Seq<char>>
    decreases s.len(),
{
    if s.len() == 0 {
        Seq::empty()
    } else {
        let prev = ws_words(s.drop_last());
        let c = s.last();
        if white_space(c) {
            prev
        } else if s.len() >= 2 && !white_space(s[s.len() - 2]) {
            prev.update(prev.len() - 1, prev.last().push(c))
        } else {
            prev.push(seq![c])
        }
    }
}

/// The words of a text (see `ws_words`), each as a character vector.
pub fn split_words(s: &str) -> (words: Vec<Vec<char>>)
    ensures
        char_vecs_view(words@) == ws_words(s@),
{
    let chars = chars_of(s);
    let n = chars.len();
    let mut words: Vec<Vec<char>> = Vec::new();
    let mut cur: Vec<char> = Vec::new();
    let mut i: usize = 0;
    assert(chars@.take(0) =~= Seq::<char>::empty());
    while i < n
        invariant
            i <= n,
            n == chars@.len(),
            chars@ == s@,
            (if cur@.len() > 0 {
                char_vecs_view(words@).push(cur@)
            } else {
                char_vecs_view(words@)
            }) == ws_words(chars@.take(i as int)),
            cur@.len() > 0 <==> (i > 0 && !white_space(chars@[i - 1])),
        decreases n - i,
    {
        let c = chars[i];
        let ghost pre = chars@.take(i as int);
        let ghost next = chars@.take(i + 1);
        proof {
            assert(next.drop_last() =~= pre);
            assert(next.last() == c);
            if i > 0 {
                assert(next[next.len() - 2] == chars@[i - 1]);
            }
        }
        let ghost before = char_vecs_view(words@);
        if is_white_space(c) {
            if cur.len() > 0 {
                let ghost cv = cur@;
                words.push(cur);
                cur = Vec::new();
                assert(char_vecs_view(words@) =~= before.push(cv));
            }
        } else if cur.len() > 0 {
            let ghost cv = cur@;
            cur.push(c);
            assert(before.push(cv).update(before.len() as int, cv.push(c)) =~= before.push(cur@));
        } else {
            cur.push(c);
            assert(cur@ =~= seq![c]);
        }
        i = i + 1;
    }
    assert(chars@.take(n as int) =~= chars@);
    if cur.len() > 0 {
        let ghost before = char_vecs_view(words@);
        let ghost cv = cur@;
        words.push(cur);
        assert(char_vecs_view(words@) =~= before.push(cv));
    }
    words
}

// ---------------------------------------------------------------------------
// QoS arguments
// ---------------------------------------------------------------------------

/// Whether `c` is an ASCII decimal digit.
pub open spec fn is_digit(c: char) -> bool {
    48 <= (c as u32) <= 57
}

/// The number the ASCII digits `s` write in decimal.
pub open spec fn decimal_value(s: Seq<char>) -> int
    decreases s.len(),
{
    if s.len() == 0 {
        0
    } else {
        decimal_value(s.drop_last()) * 10 + ((s.last() as u32) - 48)
    }
}

/// What `str::parse::<u8>` gives for a text: an optional `+`, then one or
/// more ASCII digits (leading zeros allowed) writing a number of at most
/// 255, gives that number; anything else (a sign alone, another character,
/// a larger number) gives none.
pub open spec fn parsed_u8(s: Seq<char>) -> Option<u8> {
    let d = if s.len() > 0 && s[0] == '+' { s.drop_first() } else { s };
    if d.len() > 0 && (forall|i: int| 0 <= i < d.len() ==> #[trigger] is_digit(d[i])) && decimal_value(d) <= 255 {
        Some(decimal_value(d) as u8)
    } else {
        None
    }
}

/// `str::parse::<u8>`, its error dropped.
#[verifier::external_body]
fn parse_u8(s: &str) -> (r: Option<u8>)
    ensures
        r == parsed_u8(s@),
{
    s.parse::<u8>().ok()
}

/// A QoS level given as a number: `Ok` for 0, 1 and 2, else `Err` of the number.
pub fn parse_qos(v: u8) -> (r: Result<QoS, u8>)
    ensures
        match QoS::spec_from_u8(v) {
            Some(q) => r == Ok::<QoS, u8>(q),
            None => r == Err::<QoS, u8>(v),
        },
{
    match QoS::from_u8(v) {
        Some(q) => Ok(q),
        None => Err(v),
    }
}

/// The QoS a shell argument asks for: its number (0 when it is none) as a
/// QoS level, or `Err` of a number that is no level.
pub open spec fn qos_arg(word: Seq<char>) -> Result<QoS, u8> {
    let v = match parsed_u8(word) {
        Some(v) => v,
        None => 0u8,
    };
    match QoS::spec_from_u8(v) {
        Some(q) => Ok(q),
        None => Err(v),
    }
}

fn qos_arg_exec(word: &Vec<char>) -> (r: Result<QoS, u8>)
    ensures
        r == qos_arg(word@),
{
    let text = string_from_chars(word.as_slice());
    let v = match parse_u8(text.as_str()) {
        Some(v) => v,
        None => 0u8,
    };
    parse_qos(v)
}

// ---------------------------------------------------------------------------
// Shell commands
// ---------------------------------------------------------------------------

/// A shell command that lacks arguments.
#[derive(Debug, Clone, Copy, PartialEq, Eq, Structural)]
pub enum ShellVerb {
    Publish,
    Subscribe,
    Unsubscribe,
}

/// What a line typed at the client's shell asks for.
#[derive(Debug)]
pub enum ShellCommand {
    /// A line with nothing but whitespace.
    Blank,
    /// `quit`, `exit` or `q`.
    Quit,
    /// `ping`.
    Ping,
    /// `pub <topic> <msg> [-q 0|1|2] [-r]`.
    Publish { topic: String, payload: String, qos: QoS, retain: bool },
    /// `sub <topic> [-q 0|1|2]`.
    Subscribe { topic: String, qos: QoS },
    /// `unsub <topic>`.
    Unsubscribe { topic: String },
    /// A known command without the arguments it needs.
    Usage(ShellVerb),
    /// A `-q` with a number that is no QoS level; the shell ends with an error.
    InvalidQos(u8),
    /// A first word that is no command.
    Unknown(String),
}

/// What a shell command says.
pub enum ShellCommandView {
    Blank,
    Quit,
    Ping,
    Publish { topic: Seq<char>, payload: Seq<char>, qos: QoS, retain: bool },
    Subscribe { topic: Seq<char>, qos: QoS },
    Unsubscribe { topic: Seq<char> },
    Usage(ShellVerb),
    InvalidQos(u8),
    Unknown(Seq<char>),
}

impl View for ShellCommand {
    type V = ShellCommandView;

    open spec fn view(&self) -> ShellCommandView {
        match self {
            ShellCommand::Blank => ShellCommandView::Blank,
            ShellCommand::Quit => ShellCommandView::Quit,
            ShellCommand::Ping => ShellCommandView::Ping,
            ShellCommand::Publish { topic, payload, qos, retain } => ShellCommandView::Publish {
                topic: topic@,
                payload: payload@,
                qos: *qos,
                retain: *retain,
            },
            ShellCommand::Subscribe { topic, qos } => ShellCommandView::Subscribe { topic: topic@, qos: *qos },
            ShellCommand::Unsubscribe { topic } => ShellCommandView::Unsubscribe { topic: topic@ },
            ShellCommand::Usage(v) => ShellCommandView::Usage(*v),
            ShellCommand::InvalidQos(v) => ShellCommandView::InvalidQos(*v),
            ShellCommand::Unknown(w) => ShellCommandView::Unknown(w@),
        }
    }
}

/// The options after `pub <topic> <msg>`, read left to right: `-q` takes the
/// next word as the QoS (a later one wins, the first that is no level is an
/// error), `-r` sets retain, anything else is skipped.
pub open spec fn pub_options(opts: Seq<Seq<char>>, qos: QoS, retain: bool) -> Result<(QoS, bool), u8>
    decreases opts.len(),
{
    if opts.len() == 0 {
        Ok((qos, retain))
    } else if opts[0] == "-q"@ {
        if opts.len() >= 2 {
            match qos_arg(opts[1]) {
                Ok(q) => pub_options(opts.skip(2), q, retain),
                Err(v) => Err(v),
            }
        } else {
            Ok((qos, retain))
        }
    } else if opts[0] == "-r"@ {
        pub_options(opts.skip(1), qos, true)
    } else {
        pub_options(opts.skip(1), qos, retain)
    }
}

/// The command a shell line gives.
pub open spec fn spec_shell_command(line: Seq<char>) -> ShellCommandView {
    let w = ws_words(line);
    if w.len() == 0 {
        ShellCommandView::Blank
    } else if w[0] == "quit"@ || w[0] == "exit"@ || w[0] == "q"@ {
        ShellCommandView::Quit
    } else if w[0] == "ping"@ {
        ShellCommandView::Ping
    } else if w[0] == "pub"@ {
        if w.len() < 3 {
            ShellCommandView::Usage(ShellVerb::Publish)
        } else {
            match pub_options(w.skip(3), QoS::AtMostOnce, false) {
                Ok((q, r)) => ShellCommandView::Publish { topic: w[1], payload: w[2], qos: q, retain: r },
                Err(v) => ShellCommandView::InvalidQos(v),
            }
        }
    } else if w[0] == "sub"@ {
        if w.len() < 2 {
            ShellCommandView::Usage(ShellVerb::Subscribe)
        } else if w.len() > 3 && w[2] == "-q"@ {
            match qos_arg(w[3]) {
                Ok(q) => ShellCommandView::Subscribe { topic: w[1], qos: q },
                Err(v) => ShellCommandView::InvalidQos(v),
            }
        } else {
            ShellCommandView::Subscribe { topic: w[1], qos: QoS::AtMostOnce }
        }
    } else if w[0] == "unsub"@ {
        if w.len() < 2 {
            ShellCommandView::Usage(ShellVerb::Unsubscribe)
        } else {
            ShellCommandView::Unsubscribe { topic: w[1] }
        }
    } else {
        ShellCommandView::Unknown(w[0])
    }
}

/// Whether a word is exactly `lit`.
fn word_is(word: &Vec<char>, lit: &str) -> (r: bool)
    ensures
        r == (word@ == lit@),
{
    let l = chars_of(lit);
    chars_eq(word.as_slice(), l.as_slice())
}

/// Read the options of a `pub` command, from the fourth word on.
fn read_pub_options(words: &Vec<Vec<char>>) -> (r: Result<(QoS, bool), u8>)
    requires
        words@.len() >= 3,
    ensures
        r == pub_options(char_vecs_view(words@).skip(3), QoS::AtMostOnce, false),
{
    let ghost w = char_vecs_view(words@);
    let n = words.len();
    let mut qos = QoS::AtMostOnce;
    let mut retain = false;
    let mut i: usize = 3;
    while i < n
        invariant
            3 <= i <= n,
            n == words@.len(),
            w == char_vecs_view(words@),
            pub_options(w.skip(3), QoS::AtMostOnce, false) == pub_options(w.skip(i as int), qos, retain),
        decreases n - i,
    {
        let ghost opts = w.skip(i as int);
        assert(opts[0] == words@[i as int]@);
        if word_is(&words[i], "-q") {
            if i + 1 < n {
                assert(opts[1] == words@[i + 1]@);
                assert(opts.skip(2) =~= w.skip(i + 2));
                match qos_arg_exec(&words[i + 1]) {
                    Ok(q) => {
                        qos = q;
                        i = i + 2;
                    },
                    Err(v) => {
                        return Err(v);
                    },
                }
            } else {
                assert(w.skip(n as int) =~= Seq::<Seq<char>>::empty());
                i = n;
            }
        } else if word_is(&words[i], "-r") {
            assert(opts.skip(1) =~= w.skip(i + 1));
            retain = true;
            i = i + 1;
        } else {
            assert(opts.skip(1) =~= w.skip(i + 1));
            i = i + 1;
        }
    }
    assert(w.skip(i as int) =~= Seq::<Seq<char>>::empty());
    Ok((qos, retain))
}

/// Read a line typed at the client's shell as a command.
pub fn parse_shell_command(line: &str) -> (c: ShellCommand)
    ensures
        c@ == spec_shell_command(line@),
{
    let words = split_words(line);
    let ghost w = char_vecs_view(words@);
    let n = words.len();
    if n == 0 {
        return ShellCommand::Blank;
    }
    assert(w[0] == words@[0]@);
    if word_is(&words[0], "quit") || word_is(&words[0], "exit") || word_is(&words[0], "q") {
        return ShellCommand::Quit;
    }
    if word_is(&words[0], "ping") {
        return ShellCommand::Ping;
    }
    if word_is(&words[0], "pub") {
        if n < 3 {
            return ShellCommand::Usage(ShellVerb::Publish);
        }
        assert(w[1] == words@[1]@ && w[2] == words@[2]@);
        return match read_pub_options(&words) {
            Ok((q, r)) => ShellCommand::Publish {
                topic: string_from_chars(words[1].as_slice()),
                payload: string_from_chars(words[2].as_slice()),
                qos: q,
                retain: r,
            },
            Err(v) => ShellCommand::InvalidQos(v),
        };
    }
    if word_is(&words[0], "sub") {
        if n < 2 {
            return ShellCommand::Usage(ShellVerb::Subscribe);
        }
        assert(w[1] == words@[1]@);
        let topic = string_from_chars(words[1].as_slice());
        if n > 3 && word_is(&words[2], "-q") {
            assert(w[2] == words@[2]@ && w[3] == words@[3]@);
            return match qos_arg_exec(&words[3]) {
                Ok(q) => ShellCommand::Subscribe { topic, qos: q },
                Err(v) => ShellCommand::InvalidQos(v),
            };
        }
        proof {
            if n > 3 {
                assert(w[2] == words@[2]@);
            }
        }
        return ShellCommand::Subscribe { topic, qos: QoS::AtMostOnce };
    }
    if word_is(&words[0], "unsub") {
        if n < 2 {
            return ShellCommand::Usage(ShellVerb::Unsubscribe);
        }
        assert(w[1] == words@[1]@);
        return ShellCommand::Unsubscribe { topic: string_from_chars(words[1].as_slice()) };
    }
    ShellCommand::Unknown(string_from_chars(words[0].as_slice()))
}

// ---------------------------------------------------------------------------
// Packet identifiers
// ---------------------------------------------------------------------------

/// The packet identifiers of a client's requests: 1, 2, 3, ..., wrapping
/// past 65535 and skipping 0, which MQTT does not allow.
#[derive(Debug)]
pub struct PacketIds {
    /// The counter's next value; 0 stands for 1.
    pub next: u16,
}

impl PacketIds {
    /// A counter that starts at 1.
    pub fn new() -> (p: Self)
        ensures
            p.next == 1,
    {
        PacketIds { next: 1 }
    }
}

/// The identifier a counter at `next` hands out.
pub open spec fn spec_issued_id(next: u16) -> u16 {
    if next == 0 { 1 } else { next }
}

/// The counter after it handed out `id`.
pub open spec fn spec_after_id(id: u16) -> u16 {
    if id == u16::MAX { 0 } else { (id + 1) as u16 }
}

/// The next packet identifier: never 0, one more than the last, wrapping.
pub fn next_packet_id(ids: &mut PacketIds) -> (id: u16)
    ensures
        id == spec_issued_id(old(ids).next),
        id != 0,
        final(ids).next == spec_after_id(id),
{
    let id = if ids.next == 0 { 1 } else { ids.next };
    ids.next = id.wrapping_add(1);
    id
}

// ---------------------------------------------------------------------------
// The client's packets
// ---------------------------------------------------------------------------

/// The client's CONNECT: its id, a clean session, a keep alive of 60 s, no
/// will and no credentials.
pub fn connect_packet(client_id: &str) -> (p: MqttPacketV3)
    ensures
        p@ == PacketV3View::Connect(ConnectView {
            client_id: client_id@,
            clean_session: true,
            keep_alive: 60,
            will: None,
            username: None,
            password: None,
        }),
{
    MqttPacketV3::Connect(ConnectPacket {
        client_id: client_id.to_owned(),
        clean_session: true,
        keep_alive: 60,
        will: None,
        username: None,
        password: None,
    })
}

/// Why connecting failed: the broker refused with a return code, or it did
/// not answer with a CONNACK.
#[derive(Debug, Clone, Copy, PartialEq, Eq, Structural)]
pub enum ConnectFailure {
    Refused(ConnectReturnCode),
    NotConnAck,
}

/// Whether the broker's answer to the CONNECT accepts the connection.
pub fn connack_result(packet: &MqttPacketV3) -> (r: Result<ConnAckPacket, ConnectFailure>)
    ensures
        match packet@ {
            PacketV3View::ConnAck(ack) => if ack.return_code == ConnectReturnCode::Accepted {
                r == Ok::<ConnAckPacket, ConnectFailure>(ack)
            } else {
                r == Err::<ConnAckPacket, ConnectFailure>(ConnectFailure::Refused(ack.return_code))
            },
            _ => r == Err::<ConnAckPacket, ConnectFailure>(ConnectFailure::NotConnAck),
        },
{
    match packet {
        MqttPacketV3::ConnAck(ack) => {
            if ack.return_code == ConnectReturnCode::Accepted {
                Ok(*ack)
            } else {
                Err(ConnectFailure::Refused(ack.return_code))
            }
        },
        _ => Err(ConnectFailure::NotConnAck),
    }
}

/// The most the client gathers while waiting for one packet.
pub const MAX_PACKET_SIZE: usize = 10 * 1024 * 1024;

/// What waiting for a packet does after a read from the broker.
#[derive(Debug, Clone, Copy, PartialEq, Eq, Structural)]
pub enum ReadOutcome {
    /// The read gave nothing: the broker closed the connection.
    Closed,
    /// More is buffered than a packet may take.
    TooLarge,
    /// Try to decode again.
    Continue,
}

/// What to do after a read of `read` bytes leaves `buffered` bytes waiting.
pub fn read_outcome(read: usize, buffered: usize) -> (o: ReadOutcome)
    ensures
        o == (if read == 0 {
            ReadOutcome::Closed
        } else if buffered > MAX_PACKET_SIZE {
            ReadOutcome::TooLarge
        } else {
            ReadOutcome::Continue
        }),
{
    if read == 0 {
        ReadOutcome::Closed
    } else if buffered > MAX_PACKET_SIZE {
        ReadOutcome::TooLarge
    } else {
        ReadOutcome::Continue
    }
}

/// The client's PUBLISH of a text payload: a packet identifier from `ids`
/// for QoS 1 and 2, none for QoS 0.
pub fn publish_packet(ids: &mut PacketIds, topic: &str, payload: &str, qos: QoS, retain: bool) -> (p: MqttPacketV3)
    ensures
        p@ == PacketV3View::Publish(PublishView {
            topic: topic@,
            payload: encode_utf8(payload@),
            qos,
            retain,
            packet_id: if qos == QoS::AtMostOnce { None } else { Some(spec_issued_id(old(ids).next)) },
        }),
        final(ids).next == (if qos == QoS::AtMostOnce {
            old(ids).next
        } else {
            spec_after_id(spec_issued_id(old(ids).next))
        }),
{
    let packet_id = if qos != QoS::AtMostOnce { Some(next_packet_id(ids)) } else { None };
    MqttPacketV3::Publish(PublishPacket {
        topic: topic.to_owned(),
        payload: vstd::slice::slice_to_vec(payload.as_bytes()),
        qos,
        retain,
        packet_id,
    })
}

/// The client's SUBSCRIBE to one filter, with the next packet identifier.
pub fn subscribe_packet(ids: &mut PacketIds, topic: &str, qos: QoS) -> (p: MqttPacketV3)
    ensures
        p@ == PacketV3View::Subscribe(
            spec_issued_id(old(ids).next),
            seq![SubscribeFilterView { path: topic@, qos }],
        ),
        final(ids).next == spec_after_id(spec_issued_id(old(ids).next)),
{
    let packet_id = next_packet_id(ids);
    let filter = SubscribeFilter { path: topic.to_owned(), qos };
    let ghost fv = filter@;
    let filters = vec![filter];
    let p = MqttPacketV3::Subscribe(SubscribePacket { packet_id, filters });
    assert(crate::v3::types::filters_view(filters@) =~= seq![fv]);
    p
}

/// The client's UNSUBSCRIBE from one filter, with the next packet identifier.
pub fn unsubscribe_packet(ids: &mut PacketIds, topic: &str) -> (p: MqttPacketV3)
    ensures
        p@ == PacketV3View::Unsubscribe(spec_issued_id(old(ids).next), seq![topic@]),
        final(ids).next == spec_after_id(spec_issued_id(old(ids).next)),
{
    let packet_id = next_packet_id(ids);
    let filters = vec![topic.to_owned()];
    assert(crate::v3::types::strings_view(filters@) =~= seq![topic@]);
    MqttPacketV3::Unsubscribe(UnsubscribePacket { packet_id, filters })
}

/// The client's answer to a packet from the broker: a PUBACK for a QoS 1
/// PUBLISH that carries a packet identifier, nothing otherwise.
pub fn answer_packet(packet: &MqttPacketV3) -> (r: Option<MqttPacketV3>)
    ensures
        match packet@ {
            PacketV3View::Publish(pv) => if pv.qos == QoS::AtLeastOnce && pv.packet_id is Some {
                r matches Some(a) && a@ == PacketV3View::PubAck(pv.packet_id->0)
            } else {
                r is None
            },
            _ => r is None,
        },
{
    match packet {
        MqttPacketV3::Publish(p) => match p.packet_id {
            Some(pid) => {
                if p.qos == QoS::AtLeastOnce {
                    Some(MqttPacketV3::PubAck(PubAckPacket { packet_id: pid }))
                } else {
                    None
                }
            },
            None => None,
        },
        _ => None,
    }
}

} // verus!
