use atom_mqtt::codec::{encode_packet, MqttCodec, MqttFramedCodec, MqttPacket};
use atom_mqtt::common::{MqttError, ProtocolVersion, QoS};
use atom_mqtt::config::{
    config_from_file, AclMethod, AclSection, AuthMethod, AuthSection, BrokerConfig, BrokerSection, ConfigFile,
    PersistenceSection, TcpSection, WebAuthSection, WebSection,
};
use atom_mqtt::metrics::BrokerMetrics;
use atom_mqtt::server::{decode_first_packet, decode_packet_by_version, decode_packet_within};
use atom_mqtt::session::{keep_alive_expired, SessionState};
use atom_mqtt::v3::types::{ConnectPacket, MqttPacketV3, PingReqPacket};
use bytes::BytesMut;

fn v3_bytes(p: MqttPacketV3) -> Vec<u8> {
    encode_packet(&MqttPacket::V311(p)).unwrap().to_vec()
}

fn connect_bytes() -> Vec<u8> {
    v3_bytes(MqttPacketV3::Connect(ConnectPacket {
        client_id: "c".into(),
        clean_session: true,
        keep_alive: 10,
        will: None,
        username: None,
        password: None,
    }))
}

#[test]
fn default_configuration() {
    let c = BrokerConfig::default();
    assert_eq!(c.tcp_host, "0.0.0.0");
    assert_eq!(c.tcp_port, 1883);
    assert_eq!(c.web_port, 8080);
    assert_eq!(c.max_packet_size, 10 * 1024 * 1024);
    assert_eq!(c.max_qos, QoS::ExactlyOnce);
    assert!(c.allow_anonymous);
    assert!(matches!(c.auth_method, AuthMethod::Disabled));
    assert!(matches!(c.acl_method, AclMethod::Disabled));
    assert_eq!(c.session_expiry_interval, 3600);
    assert!(c.persistence_path.is_none());
    assert!(!c.web_auth_enabled);
}

#[test]
fn configuration_file_overrides_defaults() {
    let file = ConfigFile {
        tcp: TcpSection { host: "127.0.0.1".into(), port: 1884 },
        web: WebSection { host: "127.0.0.1".into(), port: 8081 },
        broker: BrokerSection {
            max_packet_size: Some(1024),
            max_qos: Some(7),
            allow_anonymous: Some(false),
            session_expiry_interval: None,
        },
        auth: AuthSection { method: "file".into(), auth_file: None },
        acl: AclSection { method: "file".into(), acl_file: Some("rules.acl".into()) },
        web_auth: WebAuthSection { enabled: Some(true), username: None, password: Some("pw".into()) },
        persistence: PersistenceSection { db_path: Some("b.db".into()) },
    };
    let c = config_from_file(file);
    assert_eq!(c.tcp_host, "127.0.0.1");
    assert_eq!(c.tcp_port, 1884);
    assert_eq!(c.web_port, 8081);
    assert_eq!(c.max_packet_size, 1024);
    assert_eq!(c.max_qos, QoS::ExactlyOnce);
    assert!(!c.allow_anonymous);
    assert_eq!(c.session_expiry_interval, 3600);
    assert!(matches!(c.auth_method, AuthMethod::File { ref path } if path == "passwd"));
    assert!(matches!(c.acl_method, AclMethod::File { ref path } if path == "rules.acl"));
    assert!(c.web_auth_enabled);
    assert_eq!(c.web_auth_username, "admin");
    assert_eq!(c.web_auth_password, "pw");
    assert_eq!(c.persistence_path.as_deref(), Some("b.db"));
    let c = config_from_file(ConfigFile {
        tcp: TcpSection::default(),
        web: WebSection::default(),
        broker: BrokerSection::default(),
        auth: AuthSection { method: "ldap".into(), auth_file: None },
        acl: AclSection::default(),
        web_auth: WebAuthSection::default(),
        persistence: PersistenceSection::default(),
    });
    assert!(matches!(c.auth_method, AuthMethod::Disabled));
    assert!(matches!(c.acl_method, AclMethod::Disabled));
}

#[test]
fn keep_alive_timeout_is_one_and_a_half_intervals() {
    assert!(!keep_alive_expired(0, u128::MAX));
    assert!(!keep_alive_expired(10, 15_000_000_000));
    assert!(keep_alive_expired(10, 15_000_000_001));
    let s = SessionState::new("c".into(), ProtocolVersion::V5, false, 0, None);
    assert!(!s.is_stale());
    assert!(s.connected);
}

#[test]
fn metrics_count_and_saturate() {
    let mut m = BrokerMetrics::new();
    m.increment_clients_connected();
    m.increment_clients_connected();
    m.decrement_clients_connected();
    m.decrement_clients_connected();
    m.decrement_clients_connected();
    m.increment_bytes_sent(10);
    let s = m.snapshot();
    assert_eq!(s.clients_connected, 0);
    assert_eq!(s.clients_total, 2);
    assert_eq!(s.bytes_sent, 10);
}

#[test]
fn framed_codec_takes_whole_frames() {
    let mut bytes = connect_bytes();
    let ping = v3_bytes(MqttPacketV3::PingReq(PingReqPacket));
    bytes.extend_from_slice(&ping);
    let mut codec = MqttFramedCodec::new(1024);
    let mut buf = BytesMut::from(&bytes[..3]);
    assert!(codec.decode_frame(&mut buf).unwrap().is_none());
    assert_eq!(buf.len(), 3);
    let mut buf = BytesMut::from(&bytes[..]);
    let first = codec.decode_frame(&mut buf).unwrap().unwrap();
    assert!(matches!(first, MqttPacket::V311(MqttPacketV3::Connect(_))));
    assert_eq!(buf.len(), ping.len());
    let second = codec.decode_frame(&mut buf).unwrap().unwrap();
    assert!(matches!(second, MqttPacket::V311(MqttPacketV3::PingReq(_))));
    assert!(buf.is_empty());
    // A frame larger than the limit is refused and left in the buffer.
    let mut small = MqttFramedCodec::new(4);
    let mut buf = BytesMut::from(&connect_bytes()[..]);
    assert!(matches!(small.decode_frame(&mut buf), Err(MqttError::PacketTooLarge(_))));
    assert_eq!(buf.len(), connect_bytes().len());
}

#[test]
fn first_packet_decides_the_version() {
    let config = BrokerConfig::default();
    let mut buf = BytesMut::from(&connect_bytes()[..]);
    let p = decode_first_packet(&mut buf, &config).unwrap().unwrap();
    assert_eq!(p.version(), ProtocolVersion::V311);
    assert_eq!(buf.len(), connect_bytes().len());
    let mut partial = BytesMut::from(&connect_bytes()[..5]);
    assert!(decode_first_packet(&mut partial, &config).unwrap().is_none());
    let mut buf = BytesMut::from(&v3_bytes(MqttPacketV3::PingReq(PingReqPacket))[..]);
    let (p, n) = decode_packet_by_version(&mut buf, ProtocolVersion::V311).unwrap().unwrap();
    assert!(matches!(p, MqttPacket::V311(MqttPacketV3::PingReq(_))));
    assert_eq!(n, 2);
    let codec = MqttCodec::new(1024);
    let mut buf = BytesMut::from(&connect_bytes()[..]);
    assert!(codec.decode(&mut buf).unwrap().is_some());
}

#[test]
fn packets_over_the_size_limit_are_refused() {
    let config = BrokerConfig { max_packet_size: 10, ..BrokerConfig::default() };
    let bytes: Vec<u8> = vec![0x10, 0x0C, 0x00, 0x04, 0x4D, 0x51, 0x54, 0x54, 0x04, 0x02, 0x00, 0x3C, 0x00, 0x00];
    let mut buf = BytesMut::from(&bytes[..]);
    assert!(matches!(decode_first_packet(&mut buf, &config), Err(MqttError::PacketTooLarge(14))));
    let roomy = BrokerConfig { max_packet_size: 14, ..BrokerConfig::default() };
    assert!(decode_first_packet(&mut buf, &roomy).unwrap().is_some());
    let mut buf = BytesMut::from(&v3_bytes(MqttPacketV3::PingReq(PingReqPacket))[..]);
    assert!(matches!(decode_packet_within(&mut buf, ProtocolVersion::V311, 1), Err(MqttError::PacketTooLarge(2))));
    assert!(decode_packet_within(&mut buf, ProtocolVersion::V311, 2).unwrap().is_some());
}

#[test]
fn default_configuration_file_text() {
    let text = atom_mqtt::config::default_config_toml();
    assert!(text.contains("[tcp]\nhost = \"0.0.0.0\"\nport = 1883"));
    assert!(text.contains("max_packet_size = 10485760"));
    assert!(text.contains("[persistence]"));
}
