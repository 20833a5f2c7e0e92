//! Broker configuration: its defaults, and how the settings of a
//! configuration file override them.

use vstd::prelude::*;
use crate::common::QoS;
use crate::text::str_eq;

verus! {

/// Authentication method.
#[derive(Debug, Clone)]
pub enum AuthMethod {
    /// No authentication.
    Disabled,
    File { path: String },
}

/// Where topic-level access rules come from.
#[derive(Debug, Clone)]
pub enum AclMethod {
    /// No access rules: everything is allowed.
    Disabled,
    File { path: String },
}

/// Authentication credentials.
#[derive(Debug, Clone)]
pub struct Credentials {
    pub username: String,
    pub password: String,
}

/// Broker configuration.
#[derive(Debug, Clone)]
pub struct BrokerConfig {
    /// TCP bind address.
    pub tcp_host: String,
    /// TCP port.
    pub tcp_port: u16,
    /// Web management interface bind address.
    pub web_host: String,
    /// Web management interface port.
    pub web_port: u16,
    /// Maximum packet size (bytes).
    pub max_packet_size: usize,
    /// Maximum QoS level supported.
    pub max_qos: QoS,
    /// Whether anonymous connections are allowed.
    pub allow_anonymous: bool,
    /// Authentication method.
    pub auth_method: AuthMethod,
    /// Topic-level access rules.
    pub acl_method: AclMethod,
    /// Session expiry interval (seconds), 0 = no expiry.
    pub session_expiry_interval: u32,
    /// Persistence directory path. None = disable persistence.
    pub persistence_path: Option<String>,
    /// Whether the web management API asks for HTTP Basic credentials.
    pub web_auth_enabled: bool,
    /// The web management username.
    pub web_auth_username: String,
    /// The web management password.
    pub web_auth_password: String,
}

impl BrokerConfig {
    /// The default configuration: listen on all addresses, MQTT on 1883, web
    /// on 8080, 10 MB packets, QoS 2, anonymous allowed, no authentication
    /// or access rules, sessions expire after an hour, no persistence path,
    /// and an open web API (its credentials admin/admin when turned on).
    pub open spec fn is_default(&self) -> bool {
        &&& self.tcp_host@ == "0.0.0.0"@
        &&& self.tcp_port == 1883
        &&& self.web_host@ == "0.0.0.0"@
        &&& self.web_port == 8080
        &&& self.max_packet_size == 10485760
        &&& self.max_qos == QoS::ExactlyOnce
        &&& self.allow_anonymous
        &&& self.auth_method is Disabled
        &&& self.acl_method is Disabled
        &&& self.session_expiry_interval == 3600
        &&& self.persistence_path is None
        &&& !self.web_auth_enabled
        &&& self.web_auth_username@ == "admin"@
        &&& self.web_auth_password@ == "admin"@
    }
}

impl Default for BrokerConfig {
    fn default() -> (c: Self)
        ensures
            c.is_default(),
    {
        BrokerConfig {
            tcp_host: "0.0.0.0".to_owned(),
            tcp_port: 1883,
            web_host: "0.0.0.0".to_owned(),
            web_port: 8080,
            max_packet_size: 10485760,
            max_qos: QoS::ExactlyOnce,
            allow_anonymous: true,
            auth_method: AuthMethod::Disabled,
            acl_method: AclMethod::Disabled,
            session_expiry_interval: 3600,
            persistence_path: None,
            web_auth_enabled: false,
            web_auth_username: "admin".to_owned(),
            web_auth_password: "admin".to_owned(),
        }
    }
}

/// The `[tcp]` section of a configuration file.
#[derive(Debug, Clone)]
pub struct TcpSection {
    pub host: String,
    pub port: u16,
}

impl Default for TcpSection {
    fn default() -> (s: Self)
        ensures
            s.host@ == "0.0.0.0"@,
            s.port == 1883,
    {
        TcpSection { host: "0.0.0.0".to_owned(), port: 1883 }
    }
}

/// The `[web]` section of a configuration file.
#[derive(Debug, Clone)]
pub struct WebSection {
    pub host: String,
    pub port: u16,
}

impl Default for WebSection {
    fn default() -> (s: Self)
        ensures
            s.host@ == "0.0.0.0"@,
            s.port == 8080,
    {
        WebSection { host: "0.0.0.0".to_owned(), port: 8080 }
    }
}

/// The `[broker]` section of a configuration file; absent keys keep the defaults.
#[derive(Debug, Clone)]
pub struct BrokerSection {
    pub max_packet_size: Option<usize>,
    pub max_qos: Option<u8>,
    pub allow_anonymous: Option<bool>,
    pub session_expiry_interval: Option<u32>,
}

impl Default for BrokerSection {
    fn default() -> (s: Self)
        ensures
            s.max_packet_size is None,
            s.max_qos is None,
            s.allow_anonymous is None,
            s.session_expiry_interval is None,
    {
        BrokerSection { max_packet_size: None, max_qos: None, allow_anonymous: None, session_expiry_interval: None }
    }
}

/// The `[auth]` section of a configuration file.
#[derive(Debug, Clone)]
pub struct AuthSection {
    pub method: String,
    pub auth_file: Option<String>,
}

impl Default for AuthSection {
    fn default() -> (s: Self)
        ensures
            s.method@ == "none"@,
            s.auth_file is None,
    {
        AuthSection { method: "none".to_owned(), auth_file: None }
    }
}

/// The `[persistence]` section of a configuration file.
#[derive(Debug, Clone)]
pub struct PersistenceSection {
    pub db_path: Option<String>,
}

impl Default for PersistenceSection {
    fn default() -> (s: Self)
        ensures
            s.db_path is None,
    {
        PersistenceSection { db_path: None }
    }
}

/// The `[acl]` section of a configuration file.
#[derive(Debug, Clone)]
pub struct AclSection {
    pub method: String,
    pub acl_file: Option<String>,
}

impl Default for AclSection {
    fn default() -> (s: Self)
        ensures
            s.method@ == "none"@,
            s.acl_file is None,
    {
        AclSection { method: "none".to_owned(), acl_file: None }
    }
}

/// The `[web_auth]` section of a configuration file; absent keys keep the defaults.
#[derive(Debug, Clone)]
pub struct WebAuthSection {
    pub enabled: Option<bool>,
    pub username: Option<String>,
    pub password: Option<String>,
}

impl Default for WebAuthSection {
    fn default() -> (s: Self)
        ensures
            s.enabled is None,
            s.username is None,
            s.password is None,
    {
        WebAuthSection { enabled: None, username: None, password: None }
    }
}

/// The settings of a configuration file, section by section.
#[derive(Debug, Clone)]
pub struct ConfigFile {
    pub tcp: TcpSection,
    pub web: WebSection,
    pub broker: BrokerSection,
    pub auth: AuthSection,
    pub acl: AclSection,
    pub web_auth: WebAuthSection,
    pub persistence: PersistenceSection,
}

/// The configuration a file gives: the defaults, with the file's listener
/// addresses, any broker setting it holds (an unknown QoS meaning 2), file
/// authentication when its method is "file" (password file "passwd" unless
/// named), access rules when its ACL method is "file" (rule file "acl.conf"
/// unless named), any web API credential setting, and its persistence path.
pub open spec fn spec_config_from_file(f: ConfigFile, c: BrokerConfig) -> bool {
    &&& c.tcp_host@ == f.tcp.host@
    &&& c.tcp_port == f.tcp.port
    &&& c.web_host@ == f.web.host@
    &&& c.web_port == f.web.port
    &&& c.max_packet_size == (match f.broker.max_packet_size {
        Some(v) => v,
        None => 10485760,
    })
    &&& c.max_qos == (match f.broker.max_qos {
        Some(v) => match QoS::spec_from_u8(v) {
            Some(q) => q,
            None => QoS::ExactlyOnce,
        },
        None => QoS::ExactlyOnce,
    })
    &&& c.allow_anonymous == (match f.broker.allow_anonymous {
        Some(v) => v,
        None => true,
    })
    &&& c.session_expiry_interval == (match f.broker.session_expiry_interval {
        Some(v) => v,
        None => 3600,
    })
    &&& (if f.auth.method@ == "file"@ {
        c.auth_method matches AuthMethod::File { path } && path@ == (match f.auth.auth_file {
            Some(p) => p@,
            None => "passwd"@,
        })
    } else {
        c.auth_method is Disabled
    })
    &&& (if f.acl.method@ == "file"@ {
        c.acl_method matches AclMethod::File { path } && path@ == (match f.acl.acl_file {
            Some(p) => p@,
            None => "acl.conf"@,
        })
    } else {
        c.acl_method is Disabled
    })
    &&& c.web_auth_enabled == (match f.web_auth.enabled {
        Some(v) => v,
        None => false,
    })
    &&& c.web_auth_username@ == (match f.web_auth.username {
        Some(u) => u@,
        None => "admin"@,
    })
    &&& c.web_auth_password@ == (match f.web_auth.password {
        Some(p) => p@,
        None => "admin"@,
    })
    &&& crate::v3::types::opt_string_view(c.persistence_path) == crate::v3::types::opt_string_view(
        f.persistence.db_path,
    )
}

/// The configuration a parsed configuration file gives.
pub fn config_from_file(file: ConfigFile) -> (cfg: BrokerConfig)
    ensures
        spec_config_from_file(file, cfg),
{
    let ghost f = file;
    let mut cfg = BrokerConfig::default();
    cfg.tcp_host = file.tcp.host;
    cfg.tcp_port = file.tcp.port;
    cfg.web_host = file.web.host;
    cfg.web_port = file.web.port;
    match file.broker.max_packet_size {
        Some(v) => cfg.max_packet_size = v,
        None => {},
    }
    match file.broker.max_qos {
        Some(v) => {
            cfg.max_qos = match QoS::from_u8(v) {
                Some(q) => q,
                None => QoS::ExactlyOnce,
            };
        },
        None => {},
    }
    match file.broker.allow_anonymous {
        Some(v) => cfg.allow_anonymous = v,
        None => {},
    }
    match file.broker.session_expiry_interval {
        Some(v) => cfg.session_expiry_interval = v,
        None => {},
    }
    cfg.auth_method = if str_eq(file.auth.method.as_str(), "file") {
        AuthMethod::File {
            path: match file.auth.auth_file {
                Some(p) => p,
                None => "passwd".to_owned(),
            },
        }
    } else {
        AuthMethod::Disabled
    };
    cfg.acl_method = if str_eq(file.acl.method.as_str(), "file") {
        AclMethod::File {
            path: match file.acl.acl_file {
                Some(p) => p,
                None => "acl.conf".to_owned(),
            },
        }
    } else {
        AclMethod::Disabled
    };
    match file.web_auth.enabled {
        Some(v) => cfg.web_auth_enabled = v,
        None => {},
    }
    match file.web_auth.username {
        Some(u) => cfg.web_auth_username = u,
        None => {},
    }
    match file.web_auth.password {
        Some(p) => cfg.web_auth_password = p,
        None => {},
    }
    cfg.persistence_path = file.persistence.db_path;
    cfg
}

/// The text of the configuration file written when there is none: every
/// section with its default values, the optional settings commented out.
pub const DEFAULT_CONFIG_TOML: &'static str = r###"# ==========================================
# AtomMQTT Broker Configuration
#
# If this file is deleted, it will be regenerated with defaults.
# ==========================================

# MQTT TCP listener settings
[tcp]
host = "0.0.0.0"
port = 1883

# Web management interface settings
[web]
host = "0.0.0.0"
port = 8080

# Broker engine settings
[broker]
# Maximum incoming packet size in bytes (default: 10 MB)
max_packet_size = 10485760
# Maximum QoS level: 0 = AtMostOnce, 1 = AtLeastOnce, 2 = ExactlyOnce
max_qos = 2
# Allow anonymous (unauthenticated) connections
allow_anonymous = true
# Session expiry interval in seconds (0 = never expire)
session_expiry_interval = 3600

# Authentication settings
[auth]
# Authentication method: "none" or "file"
method = "none"
# Path to password file (used when method = "file")
# auth_file = "passwd"

# Topic-level access rules
[acl]
# ACL method: "none" or "file"
method = "none"
# acl_file = "acl.conf"

# Web management interface credentials (HTTP Basic Auth on /api/)
[web_auth]
enabled = false
# username = "admin"
# password = "admin"

# Persistence (SQLite) settings
[persistence]
# Database file path. Leave empty for default "broker.db"
# db_path = "broker.db"
"###;

/// The default configuration file's text (written when no config file exists).
pub fn default_config_toml() -> (s: String)
    ensures
        s@ == DEFAULT_CONFIG_TOML@,
{
    DEFAULT_CONFIG_TOML.to_owned()
}

} // verus!
