//! The broker's data: sessions, subscriptions, retained messages, wills and
//! metrics, the messages its parts exchange, and the actions its decisions
//! ask the surrounding program to carry out.

use vstd::prelude::*;
use crate::common::{QoS, ProtocolVersion};
use crate::session::SessionState;
use crate::retention::RetainedMessage;
use crate::will::WillMessage;
use crate::metrics::BrokerMetrics;
use crate::subscription::SubscriptionTree;
use crate::persistence::{PersistEvent, EventView};
use crate::v3::types::opt_string_view;
use dashmap::DashMap;

verus! {

/// `dashmap::DashMap`, a concurrent hash map.
#[verifier::external_type_specification]
#[verifier::external_body]
#[verifier::reject_recursive_types(K)]
#[verifier::reject_recursive_types(V)]
#[verifier::reject_recursive_types(S)]
pub struct ExDashMap<K, V, S>(DashMap<K, V, S>);

/// Channel message types for inter-task communication.
#[derive(Debug)]
pub enum BrokerMessage {
    Publish { topic: String, payload: Vec<u8>, qos: QoS, retain: bool, source_client: String },
    ClientDisconnected { client_id: String, clean_session: bool },
}

/// What a broker message says.
pub enum MessageView {
    Publish { topic: Seq<char>, payload: Seq<u8>, qos: QoS, retain: bool, source_client: Seq<char> },
    ClientDisconnected { client_id: Seq<char>, clean_session: bool },
}

impl View for BrokerMessage {
    type V = MessageView;

    open spec fn view(&self) -> MessageView {
        match self {
            BrokerMessage::Publish { topic, payload, qos, retain, source_client } => MessageView::Publish {
                topic: topic@,
                payload: payload@,
                qos: *qos,
                retain: *retain,
                source_client: source_client@,
            },
            BrokerMessage::ClientDisconnected { client_id, clean_session } => MessageView::ClientDisconnected {
                client_id: client_id@,
                clean_session: *clean_session,
            },
        }
    }
}

/// A notice for a web subscriber about a routed message.
#[derive(Debug)]
pub struct WebNotice {
    /// "publish" for a routed message, "will" for a delivered will.
    pub kind: String,
    pub topic: String,
    pub payload: Vec<u8>,
    pub qos: QoS,
    pub source_client: String,
}

/// Something a broker decision asks the surrounding program to do.
#[derive(Debug)]
pub enum BrokerAction {
    /// Hand a message to the background router.
    Route(BrokerMessage),
    /// Record a persistence event.
    Persist(PersistEvent),
    /// Send bytes on the connection of `client_id`, when it has one.
    Deliver { client_id: String, bytes: Vec<u8> },
    /// Tell the web subscriber `subscriber_id`, when there is one.
    Notify { subscriber_id: String, notice: WebNotice },
}

/// What an action says.
pub enum ActionView {
    Route(MessageView),
    Persist(EventView),
    Deliver(Seq<char>, Seq<u8>),
    Notify(Seq<char>, (Seq<char>, Seq<char>, Seq<u8>, QoS, Seq<char>)),
}

impl View for BrokerAction {
    type V = ActionView;

    open spec fn view(&self) -> ActionView {
        match self {
            BrokerAction::Route(m) => ActionView::Route(m@),
            BrokerAction::Persist(e) => ActionView::Persist(e@),
            BrokerAction::Deliver { client_id, bytes } => ActionView::Deliver(client_id@, bytes@),
            BrokerAction::Notify { subscriber_id, notice } => ActionView::Notify(
                subscriber_id@,
                (notice.kind@, notice.topic@, notice.payload@, notice.qos, notice.source_client@),
            ),
        }
    }
}

/// What a sequence of actions says.
pub open spec fn actions_view(s: Seq<BrokerAction>) -> Seq<ActionView> {
    s.map_values(|a: BrokerAction| a@)
}

/// Append an action.
pub fn push_action(v: &mut Vec<BrokerAction>, a: BrokerAction)
    ensures
        actions_view(final(v)@) == actions_view(old(v)@).push(a@),
{
    let ghost av = a@;
    v.push(a);
    assert(actions_view(v@) =~= actions_view(old(v)@).push(av));
}

/// Append actions.
pub fn append_actions(v: &mut Vec<BrokerAction>, mut more: Vec<BrokerAction>)
    ensures
        actions_view(final(v)@) == actions_view(old(v)@) + actions_view(more@),
{
    let ghost mv = actions_view(more@);
    v.append(&mut more);
    assert(actions_view(v@) =~= actions_view(old(v)@) + mv);
}

/// The broker's data, owned by one place and changed by its decisions.
pub struct BrokerCore {
    /// Sessions, by client id.
    pub sessions: DashMap<String, SessionState>,
    /// Subscription tree for topic matching.
    pub subscriptions: SubscriptionTree,
    /// Retained messages, by topic.
    pub retained: DashMap<String, RetainedMessage>,
    /// Will messages, by client id.
    pub wills: DashMap<String, WillMessage>,
    /// Broker metrics.
    pub metrics: BrokerMetrics,
    /// Counter for server-assigned client ids.
    pub next_client_id: u64,
}

/// What a session says (timestamps left out).
pub type SessionView = (Seq<char>, ProtocolVersion, bool, u16, bool, Option<Seq<char>>);

/// What a retained message says: topic, payload, QoS.
pub type RetainedView = (Seq<char>, Seq<u8>, QoS);

/// What a will says: client, topic, payload, QoS, retain, delay.
pub type WillView = (Seq<char>, Seq<char>, Seq<u8>, QoS, bool, u32);

pub open spec fn session_view(s: SessionState) -> SessionView {
    (s.client_id@, s.protocol_version, s.clean_session, s.keep_alive, s.connected, opt_string_view(s.username))
}

pub open spec fn session_list_view(s: Seq<SessionState>) -> Seq<SessionView> {
    s.map_values(|x: SessionState| session_view(x))
}

/// The sessions a map holds, by client id.
pub uninterp spec fn sessions_view(m: DashMap<String, SessionState>) -> Map<Seq<char>, SessionView>;

/// No sessions.
pub open spec fn no_sessions() -> Map<Seq<char>, SessionView> {
    Map::empty()
}

/// What the broker reads of a session: client id, version, clean session,
/// keep alive, connected, username and creation time.
pub type SessionRecord = (String, ProtocolVersion, bool, u16, bool, Option<String>, std::time::Instant);

pub open spec fn record_view(r: SessionRecord) -> SessionView {
    (r.0@, r.1, r.2, r.3, r.4, opt_string_view(r.5))
}

pub open spec fn records_view(s: Seq<SessionRecord>) -> Seq<SessionView> {
    s.map_values(|r: SessionRecord| record_view(r))
}

/// `items` lists the entries of `m`, each once, by key and the rest of the
/// session.
pub open spec fn session_listing(items: Seq<SessionView>, m: Map<Seq<char>, SessionView>) -> bool {
    &&& forall|i: int|
        0 <= i < items.len() ==> #[trigger] m.dom().contains(items[i].0) && {
            let v = m[items[i].0];
            v.1 == items[i].1 && v.2 == items[i].2 && v.3 == items[i].3 && v.4 == items[i].4 && v.5 == items[i].5
        }
    &&& forall|i: int, j: int| 0 <= i < j < items.len() ==> #[trigger] items[i].0 != #[trigger] items[j].0
    &&& forall|k: Seq<char>| #[trigger] m.dom().contains(k) ==> exists|i: int| 0 <= i < items.len() && #[trigger] items[i].0 == k
}

/// `DashMap::new` for sessions: an empty map.
#[verifier::external_body]
fn sessions_new() -> (m: DashMap<String, SessionState>)
    ensures
        sessions_view(m) == no_sessions(),
{
    DashMap::new()
}

/// `DashMap::insert`: `s` stored under `key`, replacing what was there.
#[verifier::external_body]
fn sessions_insert(m: &mut DashMap<String, SessionState>, key: String, s: SessionState)
    ensures
        sessions_view(*final(m)) == sessions_view(*old(m)).insert(key@, session_view(s)),
{
    m.insert(key, s);
}

/// `DashMap::remove`: the session stored under `key`, if any, taken out.
#[verifier::external_body]
fn sessions_remove(m: &mut DashMap<String, SessionState>, key: &str) -> (r: Option<SessionState>)
    ensures
        sessions_view(*final(m)) == sessions_view(*old(m)).remove(key@),
        match r {
            Some(s) => sessions_view(*old(m)).dom().contains(key@) && session_view(s) == sessions_view(*old(m))[key@],
            None => !sessions_view(*old(m)).dom().contains(key@),
        },
{
    m.remove(key).map(|(_, s)| s)
}

/// `DashMap::contains_key`.
#[verifier::external_body]
pub(crate) fn sessions_contains(m: &DashMap<String, SessionState>, key: &str) -> (r: bool)
    ensures
        r == sessions_view(*m).dom().contains(key@),
{
    m.contains_key(key)
}

/// `DashMap::get`, the session read as a record.
#[verifier::external_body]
pub(crate) fn sessions_get(m: &DashMap<String, SessionState>, key: &str) -> (r: Option<SessionRecord>)
    ensures
        match r {
            Some(t) => sessions_view(*m).dom().contains(key@) && record_view(t) == sessions_view(*m)[key@],
            None => !sessions_view(*m).dom().contains(key@),
        },
{
    m.get(key).map(|s| (s.client_id.clone(), s.protocol_version, s.clean_session, s.keep_alive, s.connected, s.username.clone(), s.created_at))
}

/// `DashMap::iter`, each entry as its key and the rest of its session as a
/// record: every entry once, in the map's own order, which is not stated.
#[verifier::external_body]
pub(crate) fn session_entries(m: &DashMap<String, SessionState>) -> (items: Vec<SessionRecord>)
    ensures
        session_listing(records_view(items@), sessions_view(*m)),
{
    m.iter()
        .map(|e| (e.key().clone(), e.protocol_version, e.clean_session, e.keep_alive, e.connected, e.username.clone(), e.created_at))
        .collect()
}

pub open spec fn retained_list_view(s: Seq<RetainedMessage>) -> Seq<RetainedView> {
    s.map_values(|m: RetainedMessage| (m.topic@, m.payload@, m.qos))
}

/// The retained messages a map holds, by topic.
pub uninterp spec fn retained_view(m: DashMap<String, RetainedMessage>) -> Map<Seq<char>, RetainedView>;

/// No retained messages.
pub open spec fn no_retained() -> Map<Seq<char>, RetainedView> {
    Map::empty()
}

/// `items` lists the entries of `m`, each once, by key, payload and QoS.
pub open spec fn retained_listing(items: Seq<RetainedView>, m: Map<Seq<char>, RetainedView>) -> bool {
    &&& forall|i: int|
        0 <= i < items.len() ==> #[trigger] m.dom().contains(items[i].0) && m[items[i].0].1 == items[i].1 && m[items[i].0].2
            == items[i].2
    &&& forall|i: int, j: int| 0 <= i < j < items.len() ==> #[trigger] items[i].0 != #[trigger] items[j].0
    &&& forall|k: Seq<char>| #[trigger] m.dom().contains(k) ==> exists|i: int| 0 <= i < items.len() && #[trigger] items[i].0 == k
}

pub open spec fn retained_items_view(items: Seq<(String, Vec<u8>, QoS)>) -> Seq<RetainedView> {
    items.map_values(|x: (String, Vec<u8>, QoS)| (x.0@, x.1@, x.2))
}

/// `DashMap::new` for retained messages: an empty map.
#[verifier::external_body]
fn retained_new() -> (m: DashMap<String, RetainedMessage>)
    ensures
        retained_view(m) == no_retained(),
{
    DashMap::new()
}

/// `DashMap::insert`: `msg` stored under `key`, replacing what was there.
#[verifier::external_body]
fn retained_insert(m: &mut DashMap<String, RetainedMessage>, key: String, msg: RetainedMessage)
    ensures
        retained_view(*final(m)) == retained_view(*old(m)).insert(key@, (msg.topic@, msg.payload@, msg.qos)),
{
    m.insert(key, msg);
}

/// `DashMap::remove`: whether `key` had an entry, which is taken out.
#[verifier::external_body]
fn retained_take(m: &mut DashMap<String, RetainedMessage>, key: &str) -> (r: bool)
    ensures
        retained_view(*final(m)) == retained_view(*old(m)).remove(key@),
        r == retained_view(*old(m)).dom().contains(key@),
{
    m.remove(key).is_some()
}

/// `DashMap::iter`, each entry as its key, payload and QoS: every entry
/// once, in the map's own order, which is not stated.
#[verifier::external_body]
pub(crate) fn retained_entries(m: &DashMap<String, RetainedMessage>) -> (items: Vec<(String, Vec<u8>, QoS)>)
    ensures
        retained_listing(retained_items_view(items@), retained_view(*m)),
{
    m.iter().map(|e| (e.key().clone(), e.value().payload.clone(), e.value().qos)).collect()
}

pub open spec fn will_view(w: WillMessage) -> WillView {
    (w.client_id@, w.topic@, w.payload@, w.qos, w.retain, w.delay_interval)
}

pub open spec fn will_list_view(s: Seq<WillMessage>) -> Seq<WillView> {
    s.map_values(|w: WillMessage| will_view(w))
}

/// The wills a map holds, by client id.
pub uninterp spec fn wills_view(m: DashMap<String, WillMessage>) -> Map<Seq<char>, WillView>;

/// No wills.
pub open spec fn no_wills() -> Map<Seq<char>, WillView> {
    Map::empty()
}

/// `DashMap::new` for wills: an empty map.
#[verifier::external_body]
fn wills_new() -> (m: DashMap<String, WillMessage>)
    ensures
        wills_view(m) == no_wills(),
{
    DashMap::new()
}

/// `DashMap::insert`: `w` stored under `key`, replacing what was there.
#[verifier::external_body]
fn wills_insert(m: &mut DashMap<String, WillMessage>, key: String, w: WillMessage)
    ensures
        wills_view(*final(m)) == wills_view(*old(m)).insert(key@, will_view(w)),
{
    m.insert(key, w);
}

/// `DashMap::remove`: the will stored under `key`, if any, taken out.
#[verifier::external_body]
fn wills_remove(m: &mut DashMap<String, WillMessage>, key: &str) -> (r: Option<WillMessage>)
    ensures
        wills_view(*final(m)) == wills_view(*old(m)).remove(key@),
        match r {
            Some(w) => wills_view(*old(m)).dom().contains(key@) && will_view(w) == wills_view(*old(m))[key@],
            None => !wills_view(*old(m)).dom().contains(key@),
        },
{
    m.remove(key).map(|(_, w)| w)
}

/// Each entry of a map is stored under its own key.
pub open spec fn keyed<T>(m: Map<Seq<char>, T>, key: spec_fn(T) -> Seq<char>) -> bool {
    forall|k: Seq<char>| #[trigger] m.dom().contains(k) ==> key(m[k]) == k
}

/// Store `m` as the retained message of its topic, replacing any before it.
pub fn retained_set(v: &mut DashMap<String, RetainedMessage>, m: RetainedMessage)
    ensures
        retained_view(*final(v)) == retained_view(*old(v)).insert(m.topic@, (m.topic@, m.payload@, m.qos)),
        keyed(retained_view(*old(v)), |x: RetainedView| x.0) ==> keyed(retained_view(*final(v)), |x: RetainedView| x.0),
{
    let key = m.topic.clone();
    retained_insert(v, key, m);
}

/// Forget the retained message of `topic`; whether there was one.
pub fn retained_remove(v: &mut DashMap<String, RetainedMessage>, topic: &str) -> (found: bool)
    ensures
        retained_view(*final(v)) == retained_view(*old(v)).remove(topic@),
        found == retained_view(*old(v)).dom().contains(topic@),
        keyed(retained_view(*old(v)), |x: RetainedView| x.0) ==> keyed(retained_view(*final(v)), |x: RetainedView| x.0),
{
    retained_take(v, topic)
}

/// Store `w` as the will of its client, replacing any before it.
pub fn will_set(v: &mut DashMap<String, WillMessage>, w: WillMessage)
    ensures
        wills_view(*final(v)) == wills_view(*old(v)).insert(w.client_id@, will_view(w)),
        keyed(wills_view(*old(v)), |x: WillView| x.0) ==> keyed(wills_view(*final(v)), |x: WillView| x.0),
{
    let key = w.client_id.clone();
    wills_insert(v, key, w);
}

/// Take out the will of `client_id`, if there is one.
pub fn will_take(v: &mut DashMap<String, WillMessage>, client_id: &str) -> (r: Option<WillMessage>)
    ensures
        wills_view(*final(v)) == wills_view(*old(v)).remove(client_id@),
        keyed(wills_view(*old(v)), |x: WillView| x.0) ==> keyed(wills_view(*final(v)), |x: WillView| x.0),
        match r {
            Some(w) => wills_view(*old(v)).dom().contains(client_id@) && will_view(w) == wills_view(*old(v))[client_id@],
            None => !wills_view(*old(v)).dom().contains(client_id@),
        },
{
    wills_remove(v, client_id)
}

/// Whether `client_id` has a session.
pub fn session_exists(v: &DashMap<String, SessionState>, client_id: &str) -> (r: bool)
    ensures
        r == sessions_view(*v).dom().contains(client_id@),
{
    sessions_contains(v, client_id)
}

/// Store `s` as the session of its client, replacing any before it.
pub fn session_set(v: &mut DashMap<String, SessionState>, s: SessionState)
    ensures
        sessions_view(*final(v)) == sessions_view(*old(v)).insert(s.client_id@, session_view(s)),
        keyed(sessions_view(*old(v)), |x: SessionView| x.0) ==> keyed(sessions_view(*final(v)), |x: SessionView| x.0),
{
    let key = s.client_id.clone();
    sessions_insert(v, key, s);
}

/// The session view with `connected` cleared.
pub open spec fn disconnected(s: SessionView) -> SessionView {
    (s.0, s.1, s.2, s.3, false, s.5)
}

/// The sessions with the one of `client_id`, if any, marked disconnected.
pub open spec fn spec_mark_disconnected(s: Map<Seq<char>, SessionView>, client_id: Seq<char>) -> Map<Seq<char>, SessionView> {
    if s.dom().contains(client_id) {
        s.insert(client_id, disconnected(s[client_id]))
    } else {
        s
    }
}

/// Mark the session of `client_id`, if there is one, as disconnected.
pub fn session_mark_disconnected(v: &mut DashMap<String, SessionState>, client_id: &str)
    ensures
        sessions_view(*final(v)) == spec_mark_disconnected(sessions_view(*old(v)), client_id@),
        keyed(sessions_view(*old(v)), |x: SessionView| x.0) ==> keyed(sessions_view(*final(v)), |x: SessionView| x.0),
{
    match sessions_remove(v, client_id) {
        Some(mut s) => {
            s.connected = false;
            sessions_insert(v, client_id.to_owned(), s);
            assert(sessions_view(*v) =~= spec_mark_disconnected(sessions_view(*old(v)), client_id@));
        },
        None => {},
    }
}

/// Forget the session of `client_id`, if there is one.
pub fn session_remove(v: &mut DashMap<String, SessionState>, client_id: &str)
    ensures
        sessions_view(*final(v)) == sessions_view(*old(v)).remove(client_id@),
        keyed(sessions_view(*old(v)), |x: SessionView| x.0) ==> keyed(sessions_view(*final(v)), |x: SessionView| x.0),
{
    let _s = sessions_remove(v, client_id);
}

impl BrokerCore {
    /// A broker with no sessions, subscriptions, retained messages or wills,
    /// zeroed metrics, and client ids assigned from 1.
    pub fn new() -> (c: Self)
        ensures
            sessions_view(c.sessions) == no_sessions(),
            c.subscriptions@.len() == 0,
            retained_view(c.retained) == no_retained(),
            wills_view(c.wills) == no_wills(),
            c.metrics == BrokerMetrics::new_spec(),
            c.next_client_id == 1,
            c.wf(),
    {
        BrokerCore {
            sessions: sessions_new(),
            subscriptions: SubscriptionTree::new(),
            retained: retained_new(),
            wills: wills_new(),
            metrics: BrokerMetrics::new(),
            next_client_id: 1,
        }
    }

    /// The keyed stores hold one entry per key, each under its own key.
    pub open spec fn wf(&self) -> bool {
        &&& keyed(sessions_view(self.sessions), |x: SessionView| x.0)
        &&& keyed(retained_view(self.retained), |x: RetainedView| x.0)
        &&& keyed(wills_view(self.wills), |x: WillView| x.0)
    }
}

} // verus!
