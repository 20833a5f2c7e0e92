//! The web management interface's decisions: who may use the API, what it
//! reports of clients, subscriptions and retained messages, what publishing
//! from the web does, the web subscribers' commands, and restoring the
//! broker's state at startup.

use vstd::prelude::*;
use vstd::utf8::*;
use base64::Engine;
use crate::common::{ProtocolVersion, QoS};
use crate::text::{chars_of, chars_eq, string_from_chars};
use crate::session::SessionState;
use crate::broker::{
    BrokerCore, SessionView, RetainedView, WillView, SessionRecord, sessions_view, retained_view, wills_view, record_view,
    records_view, session_listing, session_entries, sessions_get, session_exists, spec_mark_disconnected,
    session_mark_disconnected, session_list_view, session_remove,
};
use crate::v3::types::{opt_string_view, strings_view};
use crate::text::str_eq;
use crate::retention::RetainedMessage;
use crate::will::WillMessage;
use crate::broker::{BrokerAction, BrokerMessage, ActionView, MessageView, actions_view, push_action, append_actions};
use crate::broker::{retained_listing, retained_items_view};
use crate::persistence::{PersistEvent, EventView};
use crate::subscription::{SubscriptionView, without_key};
use crate::server::spec_routed_to;

verus! {

// ---------------------------------------------------------------------------
// Access to the API
// ---------------------------------------------------------------------------

/// What `base64::engine::general_purpose::STANDARD.decode` gives for a
/// text: `Some` of the decoded bytes, `None` when it is not valid padded
/// standard base64.
pub uninterp spec fn base64_standard_decoded(s: Seq<char>) -> Option<Seq<u8>>;

/// `base64::engine::general_purpose::STANDARD.decode`, its error dropped.
/// The contract names the result; the decoding itself is not restated.
#[verifier::external_body]
fn base64_decode(s: &str) -> (r: Option<Vec<u8>>)
    ensures
        match r {
            Some(v) => base64_standard_decoded(s@) == Some(v@),
            None => base64_standard_decoded(s@) is None,
        },
{
    match base64::engine::general_purpose::STANDARD.decode(s) {
        Ok(v) => Some(v),
        Err(_) => None,
    }
}

/// What `String::from_utf8_lossy` gives for some bytes: their text, with
/// U+FFFD in place of each invalid sequence.
pub uninterp spec fn lossy_text(b: Seq<u8>) -> Seq<char>;

/// `String::from_utf8_lossy`, owned. Its documentation states that valid
/// UTF-8 comes back as the text it encodes; the replacement of invalid
/// sequences is left to the name.
#[verifier::external_body]
fn utf8_lossy(b: &[u8]) -> (s: String)
    ensures
        s@ == lossy_text(b@),
        valid_utf8(b@) ==> s@ == decode_utf8(b@),
{
    String::from_utf8_lossy(b).into_owned()
}

/// Whether `s` begins with `p`.
pub open spec fn has_prefix(s: Seq<char>, p: Seq<char>) -> bool {
    p.len() <= s.len() && s.take(p.len() as int) == p
}

fn starts_with_chars(s: &[char], p: &[char]) -> (r: bool)
    ensures
        r == has_prefix(s@, p@),
{
    if p.len() > s.len() {
        return false;
    }
    let mut i: usize = 0;
    while i < p.len()
        invariant
            i <= p.len() <= s.len(),
            forall|j: int| 0 <= j < i ==> s@[j] == p@[j],
        decreases p.len() - i,
    {
        if s[i] != p[i] {
            assert(s@.take(p@.len() as int)[i as int] != p@[i as int]);
            return false;
        }
        i = i + 1;
    }
    assert(s@.take(p@.len() as int) =~= p@);
    true
}

/// The text that HTTP Basic credentials for `user` and `pass` decode to.
pub open spec fn basic_credentials(user: Seq<char>, pass: Seq<char>) -> Seq<char> {
    user + ":"@ + pass
}

/// Whether a decoded credential text is `user:pass`.
pub fn credentials_match(text: &str, user: &str, pass: &str) -> (r: bool)
    ensures
        r == (text@ == basic_credentials(user@, pass@)),
{
    let mut expected = chars_of(user);
    let colon = chars_of(":");
    let p = chars_of(pass);
    crate::text::append_chars(&mut expected, colon.as_slice());
    crate::text::append_chars(&mut expected, p.as_slice());
    let t = chars_of(text);
    chars_eq(t.as_slice(), expected.as_slice())
}

/// Whether base64-decoded Basic credentials, when there are any, are
/// `user:pass` (the bytes read as text as `String::from_utf8_lossy` does).
pub fn decoded_credentials_match(decoded: Option<&[u8]>, user: &str, pass: &str) -> (r: bool)
    ensures
        r == match decoded {
            Some(b) => lossy_text(b@) == basic_credentials(user@, pass@),
            None => false,
        },
{
    match decoded {
        Some(b) => {
            let text = utf8_lossy(b);
            credentials_match(text.as_str(), user, pass)
        },
        None => false,
    }
}

/// Whether a request may go on: only paths under `/api/` are guarded, and
/// only when web authentication is on; `/api/login` is always open; any
/// other such request needs an `Authorization` header `Basic <b64>` whose
/// base64 decodes to `user:pass`.
pub open spec fn spec_api_authorized(
    path: Seq<char>,
    auth_enabled: bool,
    header: Option<Seq<char>>,
    user: Seq<char>,
    pass: Seq<char>,
) -> bool {
    if !has_prefix(path, "/api/"@) || !auth_enabled || path == "/api/login"@ {
        true
    } else {
        match header {
            None => false,
            Some(h) => has_prefix(h, "Basic "@) && match base64_standard_decoded(h.skip("Basic "@.len() as int)) {
                Some(b) => lossy_text(b) == basic_credentials(user, pass),
                None => false,
            },
        }
    }
}

/// Whether a request to `path` with the `Authorization` header `header` (when
/// it has one that is text) may go on; see `spec_api_authorized`.
pub fn api_request_authorized(
    path: &str,
    auth_enabled: bool,
    header: Option<&str>,
    user: &str,
    pass: &str,
) -> (r: bool)
    ensures
        r == spec_api_authorized(path@, auth_enabled, match header {
            Some(h) => Some(h@),
            None => None,
        }, user@, pass@),
{
    let pc = chars_of(path);
    let api = chars_of("/api/");
    if !starts_with_chars(pc.as_slice(), api.as_slice()) || !auth_enabled {
        return true;
    }
    let login = chars_of("/api/login");
    if chars_eq(pc.as_slice(), login.as_slice()) {
        return true;
    }
    match header {
        None => false,
        Some(h) => {
            let hc = chars_of(h);
            let basic = chars_of("Basic ");
            if !starts_with_chars(hc.as_slice(), basic.as_slice()) {
                return false;
            }
            let mut rest: Vec<char> = Vec::new();
            let mut i: usize = basic.len();
            while i < hc.len()
                invariant
                    basic@.len() <= i <= hc@.len(),
                    rest@ == hc@.subrange(basic@.len() as int, i as int),
                decreases hc.len() - i,
            {
                rest.push(hc[i]);
                i = i + 1;
                assert(rest@ =~= hc@.subrange(basic@.len() as int, i as int));
            }
            assert(rest@ =~= h@.skip("Basic "@.len() as int));
            let encoded = string_from_chars(rest.as_slice());
            match base64_decode(encoded.as_str()) {
                Some(bytes) => decoded_credentials_match(Some(bytes.as_slice()), user, pass),
                None => false,
            }
        },
    }
}

// ---------------------------------------------------------------------------
// What the API reports
// ---------------------------------------------------------------------------

/// What the API reports of a client.
#[derive(Debug)]
pub struct ClientInfo {
    pub client_id: String,
    /// The protocol version's name, `V311` or `V5`.
    pub protocol_version: String,
    pub connected: bool,
    pub keep_alive: u16,
    /// The username, empty when there is none.
    pub username: String,
    /// When the session was made, as the clock's own text.
    pub created_at: String,
}

/// What a client report says (its creation time aside).
pub type ClientInfoView = (Seq<char>, Seq<char>, bool, u16, Seq<char>);

pub open spec fn client_info_view(c: ClientInfo) -> ClientInfoView {
    (c.client_id@, c.protocol_version@, c.connected, c.keep_alive, c.username@)
}

pub open spec fn client_infos_view(s: Seq<ClientInfo>) -> Seq<ClientInfoView> {
    s.map_values(|c: ClientInfo| client_info_view(c))
}

/// The name the API gives a protocol version.
pub open spec fn spec_version_text(v: ProtocolVersion) -> Seq<char> {
    match v {
        ProtocolVersion::V311 => "V311"@,
        ProtocolVersion::V5 => "V5"@,
    }
}

/// The name the API gives a protocol version.
pub fn version_text(v: ProtocolVersion) -> (s: String)
    ensures
        s@ == spec_version_text(v),
{
    match v {
        ProtocolVersion::V311 => "V311".to_owned(),
        ProtocolVersion::V5 => "V5".to_owned(),
    }
}

/// What the API reports of a session.
pub open spec fn spec_client_info(s: SessionView) -> ClientInfoView {
    (s.0, spec_version_text(s.1), s.4, s.3, match s.5 {
        Some(u) => u,
        None => Seq::empty(),
    })
}

/// The reports of the connected sessions, in order.
pub open spec fn spec_connected_infos(s: Seq<SessionView>) -> Seq<ClientInfoView>
    decreases s.len(),
{
    if s.len() == 0 {
        Seq::empty()
    } else {
        let prev = spec_connected_infos(s.drop_last());
        if s.last().4 {
            prev.push(spec_client_info(s.last()))
        } else {
            prev
        }
    }
}

/// A client report names the session's own protocol version: "V311" for
/// MQTT 3.1.1, "V5" for MQTT 5.0, so reports of sessions of different
/// versions differ in it.
pub proof fn lemma_report_names_version(s: SessionView)
    ensures
        spec_client_info(s).1 == spec_version_text(s.1),
        s.1 == ProtocolVersion::V311 ==> spec_client_info(s).1 == "V311"@,
        s.1 == ProtocolVersion::V5 ==> spec_client_info(s).1 == "V5"@,
        forall|t: SessionView| #[trigger] spec_client_info(t).1 == spec_client_info(s).1 ==> t.1 == s.1,
{
    reveal_strlit("V311");
    reveal_strlit("V5");
    assert("V311"@.len() != "V5"@.len());
}

/// What the API reports of one session, read as a record.
pub fn client_info(s: &SessionRecord) -> (c: ClientInfo)
    ensures
        client_info_view(c) == spec_client_info(record_view(*s)),
        c.protocol_version@ == spec_version_text(s.1),
        c.client_id@ == s.0@,
{
    ClientInfo {
        client_id: s.0.clone(),
        protocol_version: version_text(s.1),
        connected: s.4,
        keep_alive: s.3,
        username: match &s.5 {
            Some(u) => u.clone(),
            None => String::new(),
        },
        created_at: crate::session::instant_text(s.6),
    }
}

/// The reports of the connected clients, in the order the session map
/// lists its entries.
pub fn connected_clients(core: &BrokerCore) -> (r: Vec<ClientInfo>)
    ensures
        exists|items: Seq<SessionView>|
            #[trigger] session_listing(items, sessions_view(core.sessions))
                && client_infos_view(r@) == spec_connected_infos(items),
{
    let items = session_entries(&core.sessions);
    let ghost iv = records_view(items@);
    let mut r: Vec<ClientInfo> = Vec::new();
    let mut i: usize = 0;
    assert(iv.take(0) =~= Seq::<SessionView>::empty());
    while i < items.len()
        invariant
            i <= items@.len(),
            iv == records_view(items@),
            client_infos_view(r@) == spec_connected_infos(iv.take(i as int)),
        decreases items.len() - i,
    {
        let s = &items[i];
        assert(iv.take(i + 1).drop_last() =~= iv.take(i as int));
        assert(iv.take(i + 1).last() == record_view(*s));
        if s.4 {
            let c = client_info(s);
            let ghost before = client_infos_view(r@);
            let ghost cv = client_info_view(c);
            r.push(c);
            assert(client_infos_view(r@) =~= before.push(cv));
        }
        i = i + 1;
    }
    assert(iv.take(items@.len() as int) =~= iv);
    r
}

/// The report of the client `client_id`, when it has a session.
pub fn client_detail(core: &BrokerCore, client_id: &str) -> (r: Option<ClientInfo>)
    ensures
        if sessions_view(core.sessions).dom().contains(client_id@) {
            r matches Some(c) && client_info_view(c) == spec_client_info(sessions_view(core.sessions)[client_id@])
        } else {
            r is None
        },
{
    match sessions_get(&core.sessions, client_id) {
        Some(t) => Some(client_info(&t)),
        None => None,
    }
}

/// Mark the client `client_id` disconnected; whether it has a session.
pub fn disconnect_client(core: &mut BrokerCore, client_id: &str) -> (found: bool)
    ensures
        old(core).wf() ==> final(core).wf(),
        found == sessions_view(old(core).sessions).dom().contains(client_id@),
        sessions_view(final(core).sessions) == spec_mark_disconnected(sessions_view(old(core).sessions), client_id@),
        final(core).subscriptions == old(core).subscriptions,
        final(core).retained == old(core).retained,
        final(core).wills == old(core).wills,
        final(core).metrics == old(core).metrics,
        final(core).next_client_id == old(core).next_client_id,
{
    let found = session_exists(&core.sessions, client_id);
    session_mark_disconnected(&mut core.sessions, client_id);
    found
}

/// What the API reports of a subscription: client, filter and QoS name.
#[derive(Debug)]
pub struct SubscriptionInfo {
    pub client_id: String,
    pub filter: String,
    pub qos: String,
}

pub open spec fn subscription_infos_view(s: Seq<SubscriptionInfo>) -> Seq<(Seq<char>, Seq<char>, Seq<char>)> {
    s.map_values(|x: SubscriptionInfo| (x.client_id@, x.filter@, x.qos@))
}

/// The reports of all subscriptions, in the tree's order.
pub fn subscription_summaries(core: &BrokerCore) -> (r: Vec<SubscriptionInfo>)
    ensures
        subscription_infos_view(r@) == core.subscriptions@.map_values(
            |x: crate::subscription::SubscriptionView| (x.0, x.1, x.2.spec_display()),
        ),
{
    let all = core.subscriptions.all_subscriptions();
    let ghost av = crate::subscription::subs_view(all@);
    let ghost f = |x: crate::subscription::SubscriptionView| (x.0, x.1, x.2.spec_display());
    let mut r: Vec<SubscriptionInfo> = Vec::new();
    let mut i: usize = 0;
    while i < all.len()
        invariant
            i <= all@.len(),
            av == crate::subscription::subs_view(all@),
            f == (|x: crate::subscription::SubscriptionView| (x.0, x.1, x.2.spec_display())),
            subscription_infos_view(r@) == av.take(i as int).map_values(f),
        decreases all.len() - i,
    {
        let s = &all[i];
        let x = SubscriptionInfo { client_id: s.client_id.clone(), filter: s.filter.clone(), qos: s.qos.to_string() };
        let ghost before = subscription_infos_view(r@);
        let ghost xv = (x.client_id@, x.filter@, x.qos@);
        r.push(x);
        assert(subscription_infos_view(r@) =~= before.push(xv));
        assert(av.take(i + 1).map_values(f) =~= av.take(i as int).map_values(f).push(f(av[i as int])));
        i = i + 1;
    }
    assert(av.take(all@.len() as int) =~= av);
    r
}

/// What the API reports of a retained message: topic, QoS name, payload
/// size and a preview of at most 50 payload bytes read as text.
#[derive(Debug)]
pub struct RetainedMessageInfo {
    pub topic: String,
    pub qos: String,
    pub payload_size: usize,
    pub payload_preview: String,
}

pub type RetainedInfoView = (Seq<char>, Seq<char>, nat, Seq<char>);

pub open spec fn retained_infos_view(s: Seq<RetainedMessageInfo>) -> Seq<RetainedInfoView> {
    s.map_values(|x: RetainedMessageInfo| (x.topic@, x.qos@, x.payload_size as nat, x.payload_preview@))
}

/// What the API reports of a retained message.
pub open spec fn spec_retained_info(m: RetainedView) -> RetainedInfoView {
    let n = if m.1.len() < 50 { m.1.len() } else { 50 };
    (m.0, m.2.spec_display(), m.1.len(), lossy_text(m.1.take(n as int)))
}

/// The reports of all retained messages, in the store's order.
pub fn retained_summaries(core: &BrokerCore) -> (r: Vec<RetainedMessageInfo>)
    ensures
        exists|items: Seq<RetainedView>| #[trigger] retained_listing(items, retained_view(core.retained))
            && retained_infos_view(r@) == items.map_values(|m: RetainedView| spec_retained_info(m)),
{
    let items = crate::broker::retained_entries(&core.retained);
    let ghost rv = retained_items_view(items@);
    let ghost f = |m: RetainedView| spec_retained_info(m);
    let mut r: Vec<RetainedMessageInfo> = Vec::new();
    let mut i: usize = 0;
    while i < items.len()
        invariant
            i <= items@.len(),
            rv == retained_items_view(items@),
            f == (|m: RetainedView| spec_retained_info(m)),
            retained_infos_view(r@) == rv.take(i as int).map_values(f),
        decreases items.len() - i,
    {
        let m = &items[i];
        let n = if m.1.len() < 50 { m.1.len() } else { 50 };
        let preview = utf8_lossy(vstd::slice::slice_subrange(m.1.as_slice(), 0, n));
        assert(m.1@.subrange(0, n as int) =~= m.1@.take(n as int));
        let x = RetainedMessageInfo {
            topic: m.0.clone(),
            qos: m.2.to_string(),
            payload_size: m.1.len(),
            payload_preview: preview,
        };
        let ghost before = retained_infos_view(r@);
        let ghost xv = (x.topic@, x.qos@, x.payload_size as nat, x.payload_preview@);
        r.push(x);
        assert(xv == f(rv[i as int]));
        assert(retained_infos_view(r@) =~= before.push(xv));
        assert(rv.take(i + 1).map_values(f) =~= rv.take(i as int).map_values(f).push(f(rv[i as int])));
        i = i + 1;
    }
    assert(rv.take(items@.len() as int) =~= rv);
    assert(retained_listing(rv, retained_view(core.retained)));
    r
}

/// The configuration values the API shows.
#[derive(Debug)]
pub struct ConfigInfo {
    pub tcp_host: String,
    pub tcp_port: u16,
    pub web_host: String,
    pub web_port: u16,
    pub max_packet_size: usize,
    pub allow_anonymous: bool,
    pub session_expiry_interval: u32,
}

/// What the API tells of the broker.
#[derive(Debug)]
pub struct BrokerInfoResponse {
    pub version: String,
    pub name: String,
    pub uptime_seconds: u64,
    pub config: ConfigInfo,
    pub protocol_versions: Vec<String>,
}

/// The configuration values the API shows, taken from `config`.
pub fn config_info(config: &crate::config::BrokerConfig) -> (c: ConfigInfo)
    ensures
        c.tcp_host@ == config.tcp_host@,
        c.tcp_port == config.tcp_port,
        c.web_host@ == config.web_host@,
        c.web_port == config.web_port,
        c.max_packet_size == config.max_packet_size,
        c.allow_anonymous == config.allow_anonymous,
        c.session_expiry_interval == config.session_expiry_interval,
{
    ConfigInfo {
        tcp_host: config.tcp_host.clone(),
        tcp_port: config.tcp_port,
        web_host: config.web_host.clone(),
        web_port: config.web_port,
        max_packet_size: config.max_packet_size,
        allow_anonymous: config.allow_anonymous,
        session_expiry_interval: config.session_expiry_interval,
    }
}

/// What the API tells of a broker of version `version`, up for
/// `uptime_seconds`, with configuration `config`: its name, and the two
/// protocol versions it speaks.
pub fn broker_info(config: &crate::config::BrokerConfig, version: &str, uptime_seconds: u64) -> (r: BrokerInfoResponse)
    ensures
        r.version@ == version@,
        r.name@ == "AtomMQTT Broker"@,
        r.uptime_seconds == uptime_seconds,
        r.config.tcp_host@ == config.tcp_host@,
        r.config.tcp_port == config.tcp_port,
        r.config.web_host@ == config.web_host@,
        r.config.web_port == config.web_port,
        r.config.max_packet_size == config.max_packet_size,
        r.config.allow_anonymous == config.allow_anonymous,
        r.config.session_expiry_interval == config.session_expiry_interval,
        r.protocol_versions@.map_values(|v: String| v@) == seq!["MQTT 3.1.1"@, "MQTT 5.0"@],
{
    let mut protocol_versions: Vec<String> = Vec::new();
    protocol_versions.push("MQTT 3.1.1".to_owned());
    protocol_versions.push("MQTT 5.0".to_owned());
    assert(protocol_versions@.map_values(|v: String| v@) =~= seq!["MQTT 3.1.1"@, "MQTT 5.0"@]);
    BrokerInfoResponse {
        version: version.to_owned(),
        name: "AtomMQTT Broker".to_owned(),
        uptime_seconds,
        config: config_info(config),
        protocol_versions,
    }
}

/// Whether a login with `username` and `password` is accepted: they must be
/// the web management credentials.
pub fn login_accepted(config: &crate::config::BrokerConfig, username: &str, password: &str) -> (r: bool)
    ensures
        r == (username@ == config.web_auth_username@ && password@ == config.web_auth_password@),
{
    str_eq(username, config.web_auth_username.as_str()) && str_eq(password, config.web_auth_password.as_str())
}

/// Delete the retained message of `topic`: whether there was one, and the
/// record of its removal when there was.
pub fn delete_retained(core: &mut BrokerCore, topic: &str) -> (r: (bool, Vec<BrokerAction>))
    ensures
        old(core).wf() ==> final(core).wf(),
        r.0 == retained_view(old(core).retained).dom().contains(topic@),
        actions_view(r.1@) == (if r.0 {
            seq![ActionView::Persist(EventView::RemoveRetained(topic@))]
        } else {
            Seq::empty()
        }),
        retained_view(final(core).retained) == retained_view(old(core).retained).remove(topic@),
        final(core).sessions == old(core).sessions,
        final(core).subscriptions == old(core).subscriptions,
        final(core).wills == old(core).wills,
        final(core).metrics == old(core).metrics,
        final(core).next_client_id == old(core).next_client_id,
{
    let found = crate::broker::retained_remove(&mut core.retained, topic);
    let mut actions: Vec<BrokerAction> = Vec::new();
    if found {
        push_action(&mut actions, BrokerAction::Persist(PersistEvent::RemoveRetained(topic.to_owned())));
        assert(actions_view(actions@) =~= seq![ActionView::Persist(EventView::RemoveRetained(topic@))]);
    } else {
        assert(actions_view(actions@) =~= Seq::<ActionView>::empty());
    }
    (found, actions)
}

// ---------------------------------------------------------------------------
// Static files
// ---------------------------------------------------------------------------

/// `s` without the copies of `c` it starts with.
pub open spec fn trim_leading(s: Seq<char>, c: char) -> Seq<char>
    decreases s.len(),
{
    if s.len() > 0 && s[0] == c {
        trim_leading(s.drop_first(), c)
    } else {
        s
    }
}

/// The static file a request path names: the path without its leading
/// slashes, `index.html` when nothing is left.
pub open spec fn spec_static_path(p: Seq<char>) -> Seq<char> {
    let t = trim_leading(p, '/');
    if t.len() == 0 {
        "index.html"@
    } else {
        t
    }
}

/// Skipping the first `i` characters, all `c` and followed by none, trims
/// the leading copies of `c`.
proof fn lemma_trim_leading_skip(s: Seq<char>, c: char, i: int)
    requires
        0 <= i <= s.len(),
        forall|j: int| 0 <= j < i ==> s[j] == c,
        i == s.len() || s[i] != c,
    ensures
        trim_leading(s, c) == s.skip(i),
    decreases i,
{
    if i == 0 {
        assert(s.skip(0) =~= s);
    } else {
        let d = s.drop_first();
        assert forall|j: int| 0 <= j < i - 1 implies d[j] == c by {
            assert(d[j] == s[j + 1]);
        }
        if i < s.len() {
            assert(d[i - 1] == s[i]);
        }
        lemma_trim_leading_skip(d, c, i - 1);
        assert(d.skip(i - 1) =~= s.skip(i));
    }
}

/// The media type `mime_guess` gives a path, by its extension.
pub uninterp spec fn mime_type_of(path: Seq<char>) -> Seq<char>;

/// `mime_guess::from_path(path).first_or_octet_stream()`, as text: the
/// first media type its table lists for the path's extension,
/// `application/octet-stream` when there is none. The table is not
/// restated; the result is named by `mime_type_of`.
#[verifier::external_body]
fn guess_mime(path: &str) -> (m: String)
    ensures
        m@ == mime_type_of(path@),
{
    mime_guess::from_path(path).first_or_octet_stream().to_string()
}

/// The static file a request path names, and the media type to send it as.
pub fn static_file(req_path: &str) -> (r: (String, String))
    ensures
        r.0@ == spec_static_path(req_path@),
        r.1@ == mime_type_of(r.0@),
{
    let v = chars_of(req_path);
    let mut i: usize = 0;
    while i < v.len() && v[i] == '/'
        invariant
            i <= v@.len(),
            forall|j: int| 0 <= j < i ==> v@[j] == '/',
        decreases v.len() - i,
    {
        i = i + 1;
    }
    proof {
        lemma_trim_leading_skip(v@, '/', i as int);
    }
    let path = if i == v.len() {
        "index.html".to_owned()
    } else {
        let rest = string_from_chars(vstd::slice::slice_subrange(v.as_slice(), i, v.len()));
        assert(v@.subrange(i as int, v@.len() as int) =~= v@.skip(i as int));
        rest
    };
    let mime = guess_mime(path.as_str());
    (path, mime)
}

// ---------------------------------------------------------------------------
// Publishing from the web
// ---------------------------------------------------------------------------

/// The QoS a web request's number stands for: 0, 1 or 2, anything else QoS 0.
pub open spec fn web_qos(v: u8) -> QoS {
    match QoS::spec_from_u8(v) {
        Some(q) => q,
        None => QoS::AtMostOnce,
    }
}

/// A request to publish a text message from the web interface.
#[derive(Debug)]
pub struct PublishRequest {
    pub topic: String,
    pub payload: String,
    /// The QoS number; 0 when the request gives none.
    pub qos: u8,
    /// Whether to retain the message; `false` when the request does not say.
    pub retain: bool,
}

/// Publish a text message from the web interface: hand it to the router as
/// coming from "web-ui", keep it as the topic's retained message when it is
/// retained and not empty, count it, and tell how many subscriptions its
/// topic routes to.
pub fn web_publish(core: &mut BrokerCore, req: &PublishRequest) -> (r: (Vec<BrokerAction>, usize))
    requires
        old(core).metrics.messages_published < u64::MAX,
    ensures
        old(core).wf() ==> final(core).wf(),
        actions_view(r.0@) == seq![ActionView::Route(MessageView::Publish {
            topic: req.topic@,
            payload: encode_utf8(req.payload@),
            qos: web_qos(req.qos),
            retain: req.retain,
            source_client: "web-ui"@,
        })],
        retained_view(final(core).retained) == (if req.retain && encode_utf8(req.payload@).len() > 0 {
            retained_view(old(core).retained).insert(req.topic@, (req.topic@, encode_utf8(req.payload@), web_qos(req.qos)))
        } else {
            retained_view(old(core).retained)
        }),
        final(core).metrics == (crate::metrics::BrokerMetrics {
            messages_published: (old(core).metrics.messages_published + 1) as u64,
            ..old(core).metrics
        }),
        exists|subs: Seq<SubscriptionView>| #[trigger] spec_routed_to(old(core).subscriptions@, req.topic@, subs) && r.1 == subs.len(),
        final(core).sessions == old(core).sessions,
        final(core).subscriptions == old(core).subscriptions,
        final(core).wills == old(core).wills,
        final(core).next_client_id == old(core).next_client_id,
{
    let topic = req.topic.as_str();
    let payload = req.payload.as_str();
    let retain = req.retain;
    let q = match QoS::from_u8(req.qos) {
        Some(q) => q,
        None => QoS::AtMostOnce,
    };
    let bytes = vstd::slice::slice_to_vec(payload.as_bytes());
    let mut actions: Vec<BrokerAction> = Vec::new();
    push_action(&mut actions, BrokerAction::Route(BrokerMessage::Publish {
        topic: topic.to_owned(),
        payload: vstd::slice::slice_to_vec(bytes.as_slice()),
        qos: q,
        retain,
        source_client: "web-ui".to_owned(),
    }));
    assert(actions_view(actions@) =~= seq![ActionView::Route(MessageView::Publish {
        topic: req.topic@,
        payload: encode_utf8(req.payload@),
        qos: web_qos(req.qos),
        retain: req.retain,
        source_client: "web-ui"@,
    })]);
    if retain && bytes.len() > 0 {
        crate::broker::retained_set(&mut core.retained, RetainedMessage::new(topic.to_owned(), bytes, q));
    }
    core.metrics.increment_messages_published();
    let subscribers = core.subscriptions.lookup(topic);
    assert(spec_routed_to(old(core).subscriptions@, topic@, crate::subscription::subs_view(subscribers@)));
    (actions, subscribers.len())
}

// ---------------------------------------------------------------------------
// Web subscribers
// ---------------------------------------------------------------------------

/// The QoS of a web subscriber's request: 0, 1 or 2, anything else QoS 0.
pub open spec fn ws_qos(v: u64) -> QoS {
    if v == 1 {
        QoS::AtLeastOnce
    } else if v == 2 {
        QoS::ExactlyOnce
    } else {
        QoS::AtMostOnce
    }
}

/// The answer to a web subscriber's command.
#[derive(Debug)]
pub enum WsReply {
    /// No answer.
    Silent,
    /// `{"type":"error","message":...}`.
    Error(String),
    /// `{"type":"subscribed","topic_filter":...,"qos":...}`.
    Subscribed { topic_filter: String, qos: u64 },
    /// `{"type":"unsubscribed","topic_filter":...}`.
    Unsubscribed { topic_filter: String },
    /// `{"type":"pong"}`.
    Pong,
}

pub enum WsReplyView {
    Silent,
    Error(Seq<char>),
    Subscribed(Seq<char>, u64),
    Unsubscribed(Seq<char>),
    Pong,
}

impl View for WsReply {
    type V = WsReplyView;

    open spec fn view(&self) -> WsReplyView {
        match self {
            WsReply::Silent => WsReplyView::Silent,
            WsReply::Error(m) => WsReplyView::Error(m@),
            WsReply::Subscribed { topic_filter, qos } => WsReplyView::Subscribed(topic_filter@, *qos),
            WsReply::Unsubscribed { topic_filter } => WsReplyView::Unsubscribed(topic_filter@),
            WsReply::Pong => WsReplyView::Pong,
        }
    }
}

/// The answer to a command of type `kind` with the filter and QoS it gives
/// (an empty filter and QoS 0 where it gives none).
pub open spec fn spec_ws_reply(kind: Seq<char>, filter: Seq<char>, qos: u64) -> WsReplyView {
    if kind == "subscribe"@ {
        if filter.len() == 0 {
            WsReplyView::Error("topic_filter required"@)
        } else {
            WsReplyView::Subscribed(filter, qos)
        }
    } else if kind == "unsubscribe"@ {
        if filter.len() == 0 {
            WsReplyView::Silent
        } else {
            WsReplyView::Unsubscribed(filter)
        }
    } else if kind == "ping"@ {
        WsReplyView::Pong
    } else {
        WsReplyView::Error("unknown command"@)
    }
}

/// Whether `s` holds `x`.
fn strings_contain(s: &Vec<String>, x: &str) -> (r: bool)
    ensures
        r == strings_view(s@).contains(x@),
{
    let ghost sv = strings_view(s@);
    let mut i: usize = 0;
    while i < s.len()
        invariant
            i <= s@.len(),
            sv == strings_view(s@),
            forall|j: int| 0 <= j < i ==> sv[j] != x@,
        decreases s.len() - i,
    {
        if str_eq(s[i].as_str(), x) {
            assert(sv[i as int] == x@);
            return true;
        }
        i = i + 1;
    }
    false
}

/// `s` without the entries equal to `x`.
pub open spec fn without_text(s: Seq<Seq<char>>, x: Seq<char>) -> Seq<Seq<char>> {
    s.filter(|y: Seq<char>| y != x)
}

/// `s` without the entries equal to `x`.
fn strings_without(s: &Vec<String>, x: &str) -> (r: Vec<String>)
    ensures
        strings_view(r@) == without_text(strings_view(s@), x@),
{
    let ghost sv = strings_view(s@);
    let ghost p = |y: Seq<char>| y != x@;
    let mut r: Vec<String> = Vec::new();
    let mut i: usize = 0;
    proof {
        reveal(Seq::filter);
        assert(sv.take(0) =~= Seq::<Seq<char>>::empty());
    }
    while i < s.len()
        invariant
            i <= s@.len(),
            sv == strings_view(s@),
            p == (|y: Seq<char>| y != x@),
            strings_view(r@) == sv.take(i as int).filter(p),
        decreases s.len() - i,
    {
        proof {
            reveal(Seq::filter);
            assert(sv.take(i + 1).drop_last() =~= sv.take(i as int));
        }
        if !str_eq(s[i].as_str(), x) {
            let ghost before = strings_view(r@);
            let e = s[i].clone();
            r.push(e);
            assert(strings_view(r@) =~= before.push(sv[i as int]));
        }
        i = i + 1;
    }
    assert(sv.take(s@.len() as int) =~= sv);
    r
}

/// What a web subscriber's command does to the broker and to the
/// subscriber's filters: `subscribe` with a filter adds the subscription to
/// the tree and the filter to the subscriber's, `unsubscribe` with a filter
/// takes it away from both, and anything else changes neither.
pub open spec fn spec_ws_effect(
    before: BrokerCore,
    after: BrokerCore,
    active_before: Seq<Seq<char>>,
    active_after: Seq<Seq<char>>,
    subscriber_id: Seq<char>,
    kind: Seq<char>,
    topic_filter: Seq<char>,
    qos: u64,
) -> bool {
    &&& (kind == "subscribe"@ && topic_filter.len() > 0) ==> {
        &&& after.subscriptions@.to_set() == without_key(before.subscriptions@.to_set(), subscriber_id, topic_filter).insert(
            (subscriber_id, topic_filter, ws_qos(qos)),
        )
        &&& active_after == (if active_before.contains(topic_filter) {
            active_before
        } else {
            active_before.push(topic_filter)
        })
    }
    &&& (kind == "unsubscribe"@ && topic_filter.len() > 0) ==> {
        &&& after.subscriptions@.to_set() == without_key(before.subscriptions@.to_set(), subscriber_id, topic_filter)
        &&& active_after == without_text(active_before, topic_filter)
    }
    &&& !((kind == "subscribe"@ || kind == "unsubscribe"@) && topic_filter.len() > 0) ==> {
        &&& after.subscriptions == before.subscriptions
        &&& active_after == active_before
    }
    &&& after.sessions == before.sessions
    &&& after.retained == before.retained
    &&& after.wills == before.wills
    &&& after.metrics == before.metrics
    &&& after.next_client_id == before.next_client_id
}

/// Carry out a web subscriber's command: `subscribe` adds `subscriber_id`'s
/// subscription to `filter` in the tree and to the subscriber's filters,
/// `unsubscribe` takes it away from both, `ping` is answered, and anything
/// else is an error.
pub fn ws_command(
    core: &mut BrokerCore,
    subscriber_id: &str,
    active: &mut Vec<String>,
    kind: &str,
    topic_filter: &str,
    qos: u64,
) -> (r: WsReply)
    ensures
        old(core).wf() ==> final(core).wf(),
        r@ == spec_ws_reply(kind@, topic_filter@, qos),
        spec_ws_effect(
            *old(core),
            *final(core),
            strings_view(old(active)@),
            strings_view(final(active)@),
            subscriber_id@,
            kind@,
            topic_filter@,
            qos,
        ),
{
    proof {
        reveal_strlit("subscribe");
        reveal_strlit("unsubscribe");
        assert("subscribe"@[0] != "unsubscribe"@[0]);
    }
    let empty = chars_of(topic_filter).len() == 0;
    if str_eq(kind, "subscribe") {
        if empty {
            return WsReply::Error("topic_filter required".to_owned());
        }
        let q = if qos == 1 {
            QoS::AtLeastOnce
        } else if qos == 2 {
            QoS::ExactlyOnce
        } else {
            QoS::AtMostOnce
        };
        core.subscriptions.subscribe(subscriber_id, topic_filter, q);
        if !strings_contain(active, topic_filter) {
            let ghost before = strings_view(active@);
            active.push(topic_filter.to_owned());
            assert(strings_view(active@) =~= before.push(topic_filter@));
        }
        WsReply::Subscribed { topic_filter: topic_filter.to_owned(), qos }
    } else if str_eq(kind, "unsubscribe") {
        if empty {
            return WsReply::Silent;
        }
        core.subscriptions.unsubscribe(subscriber_id, topic_filter);
        let kept = strings_without(active, topic_filter);
        *active = kept;
        WsReply::Unsubscribed { topic_filter: topic_filter.to_owned() }
    } else if str_eq(kind, "ping") {
        WsReply::Pong
    } else {
        WsReply::Error("unknown command".to_owned())
    }
}

/// `serde_json::from_str` of a web subscriber's message, read as a command:
/// its `type` and `topic_filter` members when they are strings and its `qos`
/// member when it is an unsigned integer; nothing when the text is not JSON.
pub uninterp spec fn ws_command_fields(text: Seq<char>) -> Option<(Option<Seq<char>>, Option<Seq<char>>, Option<u64>)>;

/// `serde_json::from_str` into a `Value`, and the command's members read
/// from it (`Value::as_str`, `Value::as_u64`): `None` exactly when the text
/// is not JSON. The members are named by `ws_command_fields`; nothing more is
/// stated of them.
#[verifier::external_body]
fn parse_ws_command(text: &str) -> (r: Option<(Option<String>, Option<String>, Option<u64>)>)
    ensures
        match r {
            Some(t) => ws_command_fields(text@) == Some((opt_string_view(t.0), opt_string_view(t.1), t.2)),
            None => ws_command_fields(text@) is None,
        },
{
    match serde_json::from_str::<serde_json::Value>(text) {
        Ok(cmd) => Some((
            cmd["type"].as_str().map(|s| s.to_owned()),
            cmd["topic_filter"].as_str().map(|s| s.to_owned()),
            cmd["qos"].as_u64(),
        )),
        Err(_) => None,
    }
}

/// A member the command lacks reads as empty text.
pub open spec fn text_or_empty(t: Option<Seq<char>>) -> Seq<char> {
    match t {
        Some(v) => v,
        None => Seq::empty(),
    }
}

/// A `qos` the command lacks reads as 0.
pub open spec fn number_or_zero(n: Option<u64>) -> u64 {
    match n {
        Some(v) => v,
        None => 0,
    }
}

/// Carry out a web subscriber's message `text`: a JSON command as
/// `ws_command` does, its missing `type` or `topic_filter` read as empty and
/// its missing `qos` as 0; an error answer, with nothing changed, for text
/// that is not JSON.
pub fn ws_text_command(core: &mut BrokerCore, subscriber_id: &str, active: &mut Vec<String>, text: &str) -> (r: WsReply)
    ensures
        old(core).wf() ==> final(core).wf(),
        match ws_command_fields(text@) {
            Some((kind, topic_filter, qos)) => {
                &&& r@ == spec_ws_reply(text_or_empty(kind), text_or_empty(topic_filter), number_or_zero(qos))
                &&& spec_ws_effect(
                    *old(core),
                    *final(core),
                    strings_view(old(active)@),
                    strings_view(final(active)@),
                    subscriber_id@,
                    text_or_empty(kind),
                    text_or_empty(topic_filter),
                    number_or_zero(qos),
                )
            },
            None => {
                &&& r@ == WsReplyView::Error("invalid JSON"@)
                &&& *final(core) == *old(core)
                &&& final(active)@ == old(active)@
            },
        },
{
    match parse_ws_command(text) {
        Some((kind, topic_filter, qos)) => {
            let kind = match kind {
                Some(k) => k,
                None => String::new(),
            };
            let topic_filter = match topic_filter {
                Some(f) => f,
                None => String::new(),
            };
            let qos = match qos {
                Some(q) => q,
                None => 0,
            };
            ws_command(core, subscriber_id, active, kind.as_str(), topic_filter.as_str(), qos)
        },
        None => WsReply::Error("invalid JSON".to_owned()),
    }
}

/// When a web subscriber leaves: take away its subscription to each of its
/// filters.
pub fn ws_cleanup(core: &mut BrokerCore, subscriber_id: &str, active: &Vec<String>)
    ensures
        old(core).wf() ==> final(core).wf(),
        final(core).subscriptions@.to_set() == old(core).subscriptions@.to_set().filter(
            |x: SubscriptionView| !(x.0 == subscriber_id@ && strings_view(active@).contains(x.1)),
        ),
        final(core).sessions == old(core).sessions,
        final(core).retained == old(core).retained,
        final(core).wills == old(core).wills,
        final(core).metrics == old(core).metrics,
        final(core).next_client_id == old(core).next_client_id,
{
    let ghost av = strings_view(active@);
    let ghost start = old(core).subscriptions@.to_set();
    let mut i: usize = 0;
    while i < active.len()
        invariant
            i <= active@.len(),
            av == strings_view(active@),
            core.subscriptions@.to_set() == start.filter(
                |x: SubscriptionView| !(x.0 == subscriber_id@ && av.take(i as int).contains(x.1)),
            ),
            core.sessions == old(core).sessions,
            core.retained == old(core).retained,
            core.wills == old(core).wills,
            core.metrics == old(core).metrics,
            core.next_client_id == old(core).next_client_id,
        decreases active.len() - i,
    {
        let ghost before = core.subscriptions@.to_set();
        core.subscriptions.unsubscribe(subscriber_id, active[i].as_str());
        proof {
            assert(av[i as int] == active@[i as int]@);
            assert forall|f: Seq<char>| #[trigger] av.take(i + 1).contains(f) <==> (av.take(i as int).contains(f) || f == av[i as int]) by {
                if f == av[i as int] {
                    assert(av.take(i + 1)[i as int] == f);
                }
                if av.take(i as int).contains(f) {
                    let j = choose|j: int| 0 <= j < i && #[trigger] av.take(i as int)[j] == f;
                    assert(av.take(i + 1)[j] == f);
                }
                if av.take(i + 1).contains(f) {
                    let j = choose|j: int| 0 <= j < i + 1 && #[trigger] av.take(i + 1)[j] == f;
                    if j < i {
                        assert(av.take(i as int)[j] == f);
                    }
                }
            }
            assert(core.subscriptions@.to_set() =~= start.filter(
                |x: SubscriptionView| !(x.0 == subscriber_id@ && av.take(i + 1).contains(x.1)),
            ));
        }
        i = i + 1;
    }
    assert(av.take(active@.len() as int) =~= av);
}

// ---------------------------------------------------------------------------
// Startup
// ---------------------------------------------------------------------------

/// Keyed inserts of `xs`, in order, into the map `m`.
pub open spec fn insert_all<T>(m: Map<Seq<char>, T>, key: spec_fn(T) -> Seq<char>, xs: Seq<T>) -> Map<Seq<char>, T>
    decreases xs.len(),
{
    if xs.len() == 0 {
        m
    } else {
        insert_all(m, key, xs.drop_last()).insert(key(xs.last()), xs.last())
    }
}

/// The subscriptions after subscribing each of `xs` in order.
pub open spec fn subscribe_all(set: Set<SubscriptionView>, xs: Seq<SubscriptionView>) -> Set<SubscriptionView>
    decreases xs.len(),
{
    if xs.len() == 0 {
        set
    } else {
        let x = xs.last();
        without_key(subscribe_all(set, xs.drop_last()), x.0, x.1).insert(x)
    }
}

pub open spec fn rows_view(rows: Seq<(String, String, QoS)>) -> Seq<SubscriptionView> {
    rows.map_values(|r: (String, String, QoS)| (r.0@, r.1@, r.2))
}

/// Put back the stored sessions, subscriptions, retained messages and wills,
/// each stored one replacing any with the same key.
pub fn restore_state(
    core: &mut BrokerCore,
    sessions: Vec<SessionState>,
    subscriptions: Vec<(String, String, QoS)>,
    retained: Vec<RetainedMessage>,
    wills: Vec<WillMessage>,
)
    ensures
        old(core).wf() ==> final(core).wf(),
        sessions_view(final(core).sessions) == insert_all(
            sessions_view(old(core).sessions),
            |x: SessionView| x.0,
            session_list_view(sessions@),
        ),
        final(core).subscriptions@.to_set() == subscribe_all(old(core).subscriptions@.to_set(), rows_view(subscriptions@)),
        retained_view(final(core).retained) == insert_all(
            retained_view(old(core).retained),
            |x: RetainedView| x.0,
            crate::broker::retained_list_view(retained@),
        ),
        wills_view(final(core).wills) == insert_all(
            wills_view(old(core).wills),
            |x: WillView| x.0,
            crate::broker::will_list_view(wills@),
        ),
        final(core).metrics == old(core).metrics,
        final(core).next_client_id == old(core).next_client_id,
{
    let ghost skey = |x: SessionView| x.0;
    let ghost s0 = sessions_view(old(core).sessions);
    let ghost sin = session_list_view(sessions@);
    let total_sessions = sessions.len();
    let mut rest = sessions;
    let mut i: usize = 0;
    while rest.len() > 0
        invariant
            i + rest@.len() == sin.len(),
            sin.len() == total_sessions,
            session_list_view(rest@) == sin.skip(i as int),
            skey == (|x: SessionView| x.0),
            sessions_view(core.sessions) == insert_all(s0, skey, sin.take(i as int)),
            core.subscriptions == old(core).subscriptions,
            core.retained == old(core).retained,
            core.wills == old(core).wills,
            core.metrics == old(core).metrics,
            core.next_client_id == old(core).next_client_id,
            old(core).wf() ==> core.wf(),
        decreases rest.len(),
    {
        let ghost rv = session_list_view(rest@);
        let x = rest.remove(0);
        proof {
            assert(sin.take(i + 1).drop_last() =~= sin.take(i as int));
            assert(sin.take(i + 1).last() == rv[0]);
            assert(session_list_view(rest@) =~= rv.skip(1));
            assert(rv.skip(1) =~= sin.skip(i + 1));
        }
        crate::broker::session_set(&mut core.sessions, x);
        i = i + 1;
    }
    assert(sin.take(i as int) =~= sin);

    let ghost sub0 = old(core).subscriptions@.to_set();
    let ghost rin = rows_view(subscriptions@);
    let mut j: usize = 0;
    while j < subscriptions.len()
        invariant
            j <= subscriptions@.len(),
            rin == rows_view(subscriptions@),
            core.subscriptions@.to_set() == subscribe_all(sub0, rin.take(j as int)),
            sessions_view(core.sessions) == insert_all(s0, skey, sin),
            core.retained == old(core).retained,
            core.wills == old(core).wills,
            core.metrics == old(core).metrics,
            core.next_client_id == old(core).next_client_id,
            old(core).wf() ==> core.wf(),
        decreases subscriptions.len() - j,
    {
        let row = &subscriptions[j];
        core.subscriptions.subscribe(row.0.as_str(), row.1.as_str(), row.2);
        proof {
            assert(rin.take(j + 1).drop_last() =~= rin.take(j as int));
            assert(rin.take(j + 1).last() == rin[j as int]);
        }
        j = j + 1;
    }
    assert(rin.take(j as int) =~= rin);

    let ghost rkey = |x: RetainedView| x.0;
    let ghost r0 = retained_view(old(core).retained);
    let ghost retin = crate::broker::retained_list_view(retained@);
    let total_retained = retained.len();
    let mut rest_r = retained;
    let mut k: usize = 0;
    while rest_r.len() > 0
        invariant
            k + rest_r@.len() == retin.len(),
            retin.len() == total_retained,
            crate::broker::retained_list_view(rest_r@) == retin.skip(k as int),
            rkey == (|x: RetainedView| x.0),
            retained_view(core.retained) == insert_all(r0, rkey, retin.take(k as int)),
            sessions_view(core.sessions) == insert_all(s0, skey, sin),
            core.subscriptions@.to_set() == subscribe_all(sub0, rin),
            core.wills == old(core).wills,
            core.metrics == old(core).metrics,
            core.next_client_id == old(core).next_client_id,
            old(core).wf() ==> core.wf(),
        decreases rest_r.len(),
    {
        let ghost rv = crate::broker::retained_list_view(rest_r@);
        let x = rest_r.remove(0);
        proof {
            assert(retin.take(k + 1).drop_last() =~= retin.take(k as int));
            assert(retin.take(k + 1).last() == rv[0]);
            assert(crate::broker::retained_list_view(rest_r@) =~= rv.skip(1));
            assert(rv.skip(1) =~= retin.skip(k + 1));
        }
        crate::broker::retained_set(&mut core.retained, x);
        k = k + 1;
    }
    assert(retin.take(k as int) =~= retin);

    let ghost wkey = |x: WillView| x.0;
    let ghost w0 = wills_view(old(core).wills);
    let ghost win = crate::broker::will_list_view(wills@);
    let total_wills = wills.len();
    let mut rest_w = wills;
    let mut m: usize = 0;
    while rest_w.len() > 0
        invariant
            m + rest_w@.len() == win.len(),
            win.len() == total_wills,
            crate::broker::will_list_view(rest_w@) == win.skip(m as int),
            wkey == (|x: WillView| x.0),
            wills_view(core.wills) == insert_all(w0, wkey, win.take(m as int)),
            retained_view(core.retained) == insert_all(r0, rkey, retin),
            sessions_view(core.sessions) == insert_all(s0, skey, sin),
            core.subscriptions@.to_set() == subscribe_all(sub0, rin),
            core.metrics == old(core).metrics,
            core.next_client_id == old(core).next_client_id,
            old(core).wf() ==> core.wf(),
        decreases rest_w.len(),
    {
        let ghost wv = crate::broker::will_list_view(rest_w@);
        let x = rest_w.remove(0);
        proof {
            assert(win.take(m + 1).drop_last() =~= win.take(m as int));
            assert(win.take(m + 1).last() == wv[0]);
            assert(crate::broker::will_list_view(rest_w@) =~= wv.skip(1));
            assert(wv.skip(1) =~= win.skip(m + 1));
        }
        crate::broker::will_set(&mut core.wills, x);
        m = m + 1;
    }
    assert(win.take(m as int) =~= win);
}

/// The sessions that are not clean.
pub open spec fn kept_sessions(m: Map<Seq<char>, SessionView>) -> Map<Seq<char>, SessionView> {
    Map::new(|k: Seq<char>| m.dom().contains(k) && !m[k].2, |k: Seq<char>| m[k])
}

/// `o` lists, once each, the clients whose session in `m` is clean.
pub open spec fn clean_list(o: Seq<Seq<char>>, m: Map<Seq<char>, SessionView>) -> bool {
    &&& o.no_duplicates()
    &&& forall|c: Seq<char>| #[trigger] o.contains(c) <==> (m.dom().contains(c) && m[c].2)
}

/// Whether `client` has a session in `m`.
pub open spec fn has_session(m: Map<Seq<char>, SessionView>, client: Seq<char>) -> bool {
    m.dom().contains(client)
}

/// The subscriptions of clients other than `ids`.
pub open spec fn without_clients(s: Set<SubscriptionView>, ids: Seq<Seq<char>>) -> Set<SubscriptionView> {
    s.filter(|x: SubscriptionView| !ids.contains(x.0))
}

/// What forgetting the clients `ids` records: for each, its subscriptions
/// and its session removed.
pub open spec fn stale_actions(ids: Seq<Seq<char>>) -> Seq<ActionView>
    decreases ids.len(),
{
    if ids.len() == 0 {
        Seq::empty()
    } else {
        stale_actions(ids.drop_last()) + seq![
            ActionView::Persist(EventView::RemoveClientSubscriptions(ids.last())),
            ActionView::Persist(EventView::RemoveSession(ids.last())),
        ]
    }
}

/// What forgetting the subscriptions of the clients `ids` records.
pub open spec fn orphan_actions(ids: Seq<Seq<char>>) -> Seq<ActionView> {
    ids.map_values(|c: Seq<char>| ActionView::Persist(EventView::RemoveClientSubscriptions(c)))
}

/// `o` lists, once each, the clients with a subscription in `subs` and no
/// session in `sessions`.
pub open spec fn orphan_list(o: Seq<Seq<char>>, subs: Set<SubscriptionView>, sessions: Map<Seq<char>, SessionView>) -> bool {
    &&& o.no_duplicates()
    &&& forall|c: Seq<char>| #[trigger] o.contains(c) <==> (!has_session(sessions, c) && exists|x: SubscriptionView|
        #[trigger] subs.contains(x) && x.0 == c)
}

/// Take the clean sessions out; their client ids, in the order the session
/// map lists them.
fn take_clean_sessions(core: &mut BrokerCore) -> (stale: Vec<String>)
    ensures
        clean_list(strings_view(stale@), sessions_view(old(core).sessions)),
        sessions_view(final(core).sessions) == kept_sessions(sessions_view(old(core).sessions)),
        old(core).wf() ==> final(core).wf(),
        final(core).subscriptions == old(core).subscriptions,
        final(core).retained == old(core).retained,
        final(core).wills == old(core).wills,
        final(core).metrics == old(core).metrics,
        final(core).next_client_id == old(core).next_client_id,
{
    let ghost s0 = sessions_view(core.sessions);
    let items = session_entries(&core.sessions);
    let ghost iv = records_view(items@);
    let mut stale: Vec<String> = Vec::new();
    let mut i: usize = 0;
    while i < items.len()
        invariant
            i <= items@.len(),
            iv == records_view(items@),
            session_listing(iv, s0),
            strings_view(stale@).no_duplicates(),
            forall|c: Seq<char>| #[trigger] strings_view(stale@).contains(c) <==> exists|j: int|
                0 <= j < i && #[trigger] iv[j].0 == c && iv[j].2,
            forall|k: Seq<char>| #[trigger] sessions_view(core.sessions).dom().contains(k) <==> (s0.dom().contains(k)
                && !strings_view(stale@).contains(k)),
            forall|k: Seq<char>| #[trigger] sessions_view(core.sessions).dom().contains(k) ==> sessions_view(core.sessions)[k]
                == s0[k],
            core.subscriptions == old(core).subscriptions,
            core.retained == old(core).retained,
            core.wills == old(core).wills,
            core.metrics == old(core).metrics,
            core.next_client_id == old(core).next_client_id,
        decreases items.len() - i,
    {
        let e = &items[i];
        assert(iv[i as int] == record_view(*e));
        if e.2 {
            let ghost before = strings_view(stale@);
            let ghost m = sessions_view(core.sessions);
            proof {
                if before.contains(e.0@) {
                    let j = choose|j: int| 0 <= j < i && #[trigger] iv[j].0 == e.0@ && iv[j].2;
                    assert(iv[j].0 != iv[i as int].0);
                }
            }
            session_remove(&mut core.sessions, e.0.as_str());
            stale.push(e.0.clone());
            assert(strings_view(stale@) =~= before.push(e.0@));
            assert forall|c: Seq<char>| #[trigger] strings_view(stale@).contains(c) <==> (before.contains(c) || c == e.0@) by {
                if c == e.0@ {
                    assert(strings_view(stale@)[before.len() as int] == c);
                }
                if strings_view(stale@).contains(c) && c != e.0@ {
                    let k = choose|k: int| 0 <= k < strings_view(stale@).len() && #[trigger] strings_view(stale@)[k] == c;
                    assert(before[k] == c);
                }
                if before.contains(c) {
                    let k = choose|k: int| 0 <= k < before.len() && #[trigger] before[k] == c;
                    assert(strings_view(stale@)[k] == c);
                }
            }
            assert forall|c: Seq<char>| #[trigger] strings_view(stale@).contains(c) <==> exists|j: int|
                0 <= j < i + 1 && #[trigger] iv[j].0 == c && iv[j].2 by {
                if exists|j: int| 0 <= j < i + 1 && #[trigger] iv[j].0 == c && iv[j].2 {
                    let j = choose|j: int| 0 <= j < i + 1 && #[trigger] iv[j].0 == c && iv[j].2;
                    if j < i {
                        assert(before.contains(c));
                    }
                }
                if before.contains(c) {
                    let j = choose|j: int| 0 <= j < i && #[trigger] iv[j].0 == c && iv[j].2;
                    assert(0 <= j < i + 1 && iv[j].0 == c && iv[j].2);
                }
                if c == e.0@ {
                    assert(iv[i as int].0 == c && iv[i as int].2);
                }
            }
            assert forall|k: Seq<char>| #[trigger] sessions_view(core.sessions).dom().contains(k) <==> (s0.dom().contains(k)
                && !strings_view(stale@).contains(k)) by {
                assert(sessions_view(core.sessions).dom().contains(k) <==> (m.dom().contains(k) && k != e.0@));
                assert(m.dom().contains(k) <==> (s0.dom().contains(k) && !before.contains(k)));
            }
        } else {
            assert forall|c: Seq<char>| #[trigger] strings_view(stale@).contains(c) <==> exists|j: int|
                0 <= j < i + 1 && #[trigger] iv[j].0 == c && iv[j].2 by {
                if exists|j: int| 0 <= j < i + 1 && #[trigger] iv[j].0 == c && iv[j].2 {
                    let j = choose|j: int| 0 <= j < i + 1 && #[trigger] iv[j].0 == c && iv[j].2;
                    assert(j != i);
                }
            }
        }
        i = i + 1;
    }
    proof {
        assert forall|c: Seq<char>| #[trigger] strings_view(stale@).contains(c) <==> (s0.dom().contains(c) && s0[c].2) by {
            if s0.dom().contains(c) {
                let j = choose|j: int| 0 <= j < iv.len() && #[trigger] iv[j].0 == c;
                assert(s0[iv[j].0].2 == iv[j].2);
            }
            if strings_view(stale@).contains(c) {
                let j = choose|j: int| 0 <= j < iv.len() && #[trigger] iv[j].0 == c && iv[j].2;
                assert(s0.dom().contains(iv[j].0));
            }
        }
        assert(sessions_view(core.sessions) =~= kept_sessions(s0));
    }
    stale
}

/// Forget the subscriptions of each client in `ids`, recording each and
/// the removal of its session.
fn forget_clients(core: &mut BrokerCore, ids: &Vec<String>, with_sessions: bool) -> (actions: Vec<BrokerAction>)
    ensures
        final(core).subscriptions@.to_set() == without_clients(old(core).subscriptions@.to_set(), strings_view(ids@)),
        actions_view(actions@) == (if with_sessions {
            stale_actions(strings_view(ids@))
        } else {
            orphan_actions(strings_view(ids@))
        }),
        final(core).sessions == old(core).sessions,
        final(core).retained == old(core).retained,
        final(core).wills == old(core).wills,
        final(core).metrics == old(core).metrics,
        final(core).next_client_id == old(core).next_client_id,
{
    let ghost iv = strings_view(ids@);
    let ghost s0 = old(core).subscriptions@.to_set();
    let mut actions: Vec<BrokerAction> = Vec::new();
    let mut i: usize = 0;
    assert(without_clients(s0, iv.take(0)) =~= s0);
    while i < ids.len()
        invariant
            i <= ids@.len(),
            iv == strings_view(ids@),
            core.subscriptions@.to_set() == without_clients(s0, iv.take(i as int)),
            actions_view(actions@) == (if with_sessions {
                stale_actions(iv.take(i as int))
            } else {
                orphan_actions(iv.take(i as int))
            }),
            core.sessions == old(core).sessions,
            core.retained == old(core).retained,
            core.wills == old(core).wills,
            core.metrics == old(core).metrics,
            core.next_client_id == old(core).next_client_id,
        decreases ids.len() - i,
    {
        let id = &ids[i];
        core.subscriptions.unsubscribe_all(id.as_str());
        proof {
            assert(iv[i as int] == id@);
            assert forall|c: Seq<char>| #[trigger] iv.take(i + 1).contains(c) <==> (iv.take(i as int).contains(c) || c == iv[i as int]) by {
                if c == iv[i as int] {
                    assert(iv.take(i + 1)[i as int] == c);
                }
                if iv.take(i as int).contains(c) {
                    let j = choose|j: int| 0 <= j < i && #[trigger] iv.take(i as int)[j] == c;
                    assert(iv.take(i + 1)[j] == c);
                }
                if iv.take(i + 1).contains(c) {
                    let j = choose|j: int| 0 <= j < i + 1 && #[trigger] iv.take(i + 1)[j] == c;
                    if j < i {
                        assert(iv.take(i as int)[j] == c);
                    }
                }
            }
            assert(core.subscriptions@.to_set() =~= without_clients(s0, iv.take(i + 1)));
            assert(iv.take(i + 1).drop_last() =~= iv.take(i as int));
        }
        let ghost before = actions_view(actions@);
        push_action(&mut actions, BrokerAction::Persist(PersistEvent::RemoveClientSubscriptions(id.clone())));
        if with_sessions {
            push_action(&mut actions, BrokerAction::Persist(PersistEvent::RemoveSession(id.clone())));
            assert(actions_view(actions@) =~= before + seq![
                ActionView::Persist(EventView::RemoveClientSubscriptions(id@)),
                ActionView::Persist(EventView::RemoveSession(id@)),
            ]);
        } else {
            assert(orphan_actions(iv.take(i + 1)) =~= orphan_actions(iv.take(i as int)).push(
                ActionView::Persist(EventView::RemoveClientSubscriptions(id@)),
            ));
        }
        i = i + 1;
    }
    assert(iv.take(i as int) =~= iv);
    actions
}

/// The clients with a subscription and no session, once each, in the
/// order of their first subscription.
fn find_orphans(core: &BrokerCore) -> (o: Vec<String>)
    ensures
        orphan_list(strings_view(o@), core.subscriptions@.to_set(), sessions_view(core.sessions)),
{
    let all = core.subscriptions.all_subscriptions();
    let ghost av = crate::subscription::subs_view(all@);
    let ghost sv = sessions_view(core.sessions);
    let mut o: Vec<String> = Vec::new();
    let mut i: usize = 0;
    while i < all.len()
        invariant
            i <= all@.len(),
            av == crate::subscription::subs_view(all@),
            av == core.subscriptions@,
            sv == sessions_view(core.sessions),
            strings_view(o@).no_duplicates(),
            forall|c: Seq<char>| #[trigger] strings_view(o@).contains(c) <==> (!has_session(sv, c) && exists|j: int|
                0 <= j < i && #[trigger] av[j].0 == c),
        decreases all.len() - i,
    {
        let cid = &all[i].client_id;
        assert(av[i as int].0 == cid@);
        let lonely = !session_exists(&core.sessions, cid.as_str());
        if lonely && !strings_contain(&o, cid.as_str()) {
            let ghost before = strings_view(o@);
            o.push(cid.clone());
            assert(strings_view(o@) =~= before.push(cid@));
            assert forall|c: Seq<char>| #[trigger] strings_view(o@).contains(c) <==> (!has_session(sv, c) && exists|j: int|
                0 <= j < i + 1 && #[trigger] av[j].0 == c) by {
                if c == cid@ {
                    assert(strings_view(o@)[before.len() as int] == c);
                }
                if strings_view(o@).contains(c) && c != cid@ {
                    let k = choose|k: int| 0 <= k < strings_view(o@).len() && #[trigger] strings_view(o@)[k] == c;
                    assert(before[k] == c);
                }
                if before.contains(c) {
                    let k = choose|k: int| 0 <= k < before.len() && #[trigger] before[k] == c;
                    assert(strings_view(o@)[k] == c);
                }
            }
        } else {
            assert forall|c: Seq<char>| #[trigger] strings_view(o@).contains(c) <==> (!has_session(sv, c) && exists|j: int|
                0 <= j < i + 1 && #[trigger] av[j].0 == c) by {
                if c == cid@ && !has_session(sv, c) {
                    assert(strings_view(o@).contains(c));
                }
            }
        }
        i = i + 1;
    }
    proof {
        assert forall|c: Seq<char>| #[trigger] strings_view(o@).contains(c) <==> (!has_session(sv, c) && exists|x: SubscriptionView|
            #[trigger] core.subscriptions@.to_set().contains(x) && x.0 == c) by {
            if strings_view(o@).contains(c) {
                let j = choose|j: int| 0 <= j < all@.len() && #[trigger] av[j].0 == c;
                assert(core.subscriptions@.to_set().contains(av[j]));
            }
            if !has_session(sv, c) && exists|x: SubscriptionView| #[trigger] core.subscriptions@.to_set().contains(x) && x.0 == c {
                let x = choose|x: SubscriptionView| #[trigger] core.subscriptions@.to_set().contains(x) && x.0 == c;
                assert(core.subscriptions@.contains(x));
                let j = choose|j: int| 0 <= j < av.len() && av[j] == x;
                assert(av[j].0 == c);
            }
        }
    }
    o
}

/// Clean up at startup: forget the clean sessions that outlived their
/// connection, with their subscriptions, then the subscriptions of clients
/// with no session; count the subscriptions left. Returns what to record,
/// and how many clients of each kind were forgotten.
pub fn startup_cleanup(core: &mut BrokerCore) -> (r: (Vec<BrokerAction>, usize, usize))
    ensures
        old(core).wf() ==> final(core).wf(),
        ({
            let s0 = sessions_view(old(core).sessions);
            let kept = kept_sessions(s0);
            &&& sessions_view(final(core).sessions) == kept
            &&& final(core).subscriptions@.to_set() == old(core).subscriptions@.to_set().filter(
                |x: SubscriptionView| has_session(kept, x.0),
            )
            &&& exists|stale: Seq<Seq<char>>, o: Seq<Seq<char>>|
                #[trigger] clean_list(stale, s0) && #[trigger] orphan_list(
                    o,
                    without_clients(old(core).subscriptions@.to_set(), stale),
                    kept,
                ) && actions_view(r.0@) == stale_actions(stale) + orphan_actions(o) && r.1 == stale.len() && r.2
                    == o.len()
        }),
        final(core).metrics == (crate::metrics::BrokerMetrics {
            subscriptions_active: crate::server::spec_count_metric(final(core).subscriptions@.len()),
            ..old(core).metrics
        }),
        final(core).retained == old(core).retained,
        final(core).wills == old(core).wills,
        final(core).next_client_id == old(core).next_client_id,
{
    let ghost s0 = sessions_view(core.sessions);
    let ghost sub0 = core.subscriptions@.to_set();
    let stale = take_clean_sessions(core);
    let mut actions = forget_clients(core, &stale, true);
    let ghost sv = strings_view(stale@);
    let ghost mid = core.subscriptions@.to_set();
    let ghost kept = sessions_view(core.sessions);
    let orphans = find_orphans(core);
    let more = forget_clients(core, &orphans, false);
    let ghost ov = strings_view(orphans@);
    append_actions(&mut actions, more);
    proof {
        assert(core.subscriptions@.to_set() =~= sub0.filter(|x: SubscriptionView| has_session(kept, x.0))) by {
            assert forall|x: SubscriptionView| mid.contains(x) implies (ov.contains(x.0) <==> !has_session(kept, x.0)) by {
                if !has_session(kept, x.0) {
                    assert(mid.contains(x) && x.0 == x.0);
                }
            }
            assert forall|x: SubscriptionView| sub0.contains(x) && has_session(kept, x.0) implies mid.contains(x) by {
                assert(!sv.contains(x.0));
            }
        }
        assert(clean_list(sv, s0) && orphan_list(ov, without_clients(sub0, sv), kept));
    }
    let n = core.subscriptions.count();
    core.metrics.subscriptions_active = n as u64;
    let stale_count = stale.len();
    let orphan_count = orphans.len();
    (actions, stale_count, orphan_count)
}

} // verus!
