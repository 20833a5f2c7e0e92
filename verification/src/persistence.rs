//! Persistence of broker state: the events that trigger writes, what each
//! writes, and how stored rows become broker values again.

use vstd::prelude::*;
use crate::common::{QoS, ProtocolVersion};
use crate::session::{SessionState, now};
use crate::retention::RetainedMessage;
use crate::will::WillMessage;
use crate::v3::types::opt_string_view;

verus! {

/// Events that trigger persistence writes.
#[derive(Debug)]
pub enum PersistEvent {
    /// Save/update a session.
    SaveSession {
        client_id: String,
        protocol_version: i32,
        clean_session: bool,
        keep_alive: u16,
        username: Option<String>,
    },
    /// Remove a session.
    RemoveSession(String),
    /// Save or update a subscription (upsert by client_id + filter).
    SaveSubscription { client_id: String, filter: String, qos: i32 },
    /// Remove a single subscription.
    RemoveSubscription { client_id: String, filter: String },
    /// Remove all subscriptions for a client.
    RemoveClientSubscriptions(String),
    /// Save or update a retained message (upsert by topic).
    SaveRetained { topic: String, payload: Vec<u8>, qos: i32 },
    /// Delete a retained message by topic.
    RemoveRetained(String),
    /// Save a will message.
    SaveWill {
        client_id: String,
        topic: String,
        payload: Vec<u8>,
        qos: i32,
        retain: bool,
        delay_interval: u32,
    },
    /// Remove a will message by client_id.
    RemoveWill(String),
    /// Graceful shutdown signal.
    Shutdown,
}

/// What a persistence event says.
pub enum EventView {
    SaveSession {
        client_id: Seq<char>,
        protocol_version: i32,
        clean_session: bool,
        keep_alive: u16,
        username: Option<Seq<char>>,
    },
    RemoveSession(Seq<char>),
    SaveSubscription { client_id: Seq<char>, filter: Seq<char>, qos: i32 },
    RemoveSubscription { client_id: Seq<char>, filter: Seq<char> },
    RemoveClientSubscriptions(Seq<char>),
    SaveRetained { topic: Seq<char>, payload: Seq<u8>, qos: i32 },
    RemoveRetained(Seq<char>),
    SaveWill {
        client_id: Seq<char>,
        topic: Seq<char>,
        payload: Seq<u8>,
        qos: i32,
        retain: bool,
        delay_interval: u32,
    },
    RemoveWill(Seq<char>),
    Shutdown,
}

impl View for PersistEvent {
    type V = EventView;

    open spec fn view(&self) -> EventView {
        match self {
            PersistEvent::SaveSession { client_id, protocol_version, clean_session, keep_alive, username } =>
                EventView::SaveSession {
                client_id: client_id@,
                protocol_version: *protocol_version,
                clean_session: *clean_session,
                keep_alive: *keep_alive,
                username: opt_string_view(*username),
            },
            PersistEvent::RemoveSession(c) => EventView::RemoveSession(c@),
            PersistEvent::SaveSubscription { client_id, filter, qos } => EventView::SaveSubscription {
                client_id: client_id@,
                filter: filter@,
                qos: *qos,
            },
            PersistEvent::RemoveSubscription { client_id, filter } => EventView::RemoveSubscription {
                client_id: client_id@,
                filter: filter@,
            },
            PersistEvent::RemoveClientSubscriptions(c) => EventView::RemoveClientSubscriptions(c@),
            PersistEvent::SaveRetained { topic, payload, qos } => EventView::SaveRetained {
                topic: topic@,
                payload: payload@,
                qos: *qos,
            },
            PersistEvent::RemoveRetained(t) => EventView::RemoveRetained(t@),
            PersistEvent::SaveWill { client_id, topic, payload, qos, retain, delay_interval } =>
                EventView::SaveWill {
                client_id: client_id@,
                topic: topic@,
                payload: payload@,
                qos: *qos,
                retain: *retain,
                delay_interval: *delay_interval,
            },
            PersistEvent::RemoveWill(c) => EventView::RemoveWill(c@),
            PersistEvent::Shutdown => EventView::Shutdown,
        }
    }
}

/// The stored form of a QoS: its wire value.
pub open spec fn spec_qos_to_db(q: QoS) -> i32 {
    q.spec_to_u8() as i32
}

/// The stored form of a QoS: its wire value.
pub fn qos_to_db(q: QoS) -> (v: i32)
    ensures
        v == spec_qos_to_db(q),
{
    q.to_u8() as i32
}

/// The QoS a stored value names: 2 and 1 name themselves, anything else QoS 0.
pub open spec fn spec_qos_from_db(v: i32) -> QoS {
    if v == 2 {
        QoS::ExactlyOnce
    } else if v == 1 {
        QoS::AtLeastOnce
    } else {
        QoS::AtMostOnce
    }
}

/// The QoS a stored value names: 2 and 1 name themselves, anything else QoS 0.
pub fn qos_from_db(v: i32) -> (q: QoS)
    ensures
        q == spec_qos_from_db(v),
{
    match v {
        2 => QoS::ExactlyOnce,
        1 => QoS::AtLeastOnce,
        _ => QoS::AtMostOnce,
    }
}

/// The stored form of a protocol version: 5 for MQTT 5.0, 4 otherwise.
pub open spec fn spec_version_to_db(v: ProtocolVersion) -> i32 {
    match v {
        ProtocolVersion::V5 => 5,
        _ => 4,
    }
}

/// The stored form of a protocol version: 5 for MQTT 5.0, 4 otherwise.
pub fn version_to_db(v: ProtocolVersion) -> (n: i32)
    ensures
        n == spec_version_to_db(v),
{
    match v {
        ProtocolVersion::V5 => 5,
        _ => 4,
    }
}

/// The protocol version a stored value names: 5 is MQTT 5.0, anything else 3.1.1.
pub fn version_from_db(n: i32) -> (v: ProtocolVersion)
    ensures
        v == (if n == 5 { ProtocolVersion::V5 } else { ProtocolVersion::V311 }),
{
    match n {
        5 => ProtocolVersion::V5,
        _ => ProtocolVersion::V311,
    }
}

/// Storing a QoS and reading it back gives the same QoS.
pub proof fn lemma_qos_db_roundtrip(q: QoS)
    ensures
        spec_qos_from_db(spec_qos_to_db(q)) == q,
{
}

/// Storing a protocol version and reading it back gives the same version.
pub proof fn lemma_version_db_roundtrip(v: ProtocolVersion)
    ensures
        (if spec_version_to_db(v) == 5 { ProtocolVersion::V5 } else { ProtocolVersion::V311 }) == v,
{
}

/// A stored session row as a session: disconnected, timestamps reset to now.
pub fn session_from_row(
    client_id: String,
    protocol_version: i32,
    clean_session: bool,
    keep_alive: u16,
    username: Option<String>,
) -> (s: SessionState)
    ensures
        s.client_id == client_id,
        s.protocol_version == (if protocol_version == 5 { ProtocolVersion::V5 } else { ProtocolVersion::V311 }),
        s.clean_session == clean_session,
        s.keep_alive == keep_alive,
        !s.connected,
        s.username == username,
{
    let t = now();
    SessionState {
        client_id,
        protocol_version: version_from_db(protocol_version),
        clean_session,
        keep_alive,
        connected: false,
        created_at: t,
        last_active: t,
        username,
    }
}

/// A stored subscription row as (client id, filter, QoS).
pub fn subscription_from_row(client_id: String, filter: String, qos: i32) -> (r: (String, String, QoS))
    ensures
        r.0 == client_id,
        r.1 == filter,
        r.2 == spec_qos_from_db(qos),
{
    (client_id, filter, qos_from_db(qos))
}

/// A stored retained-message row as a retained message.
pub fn retained_from_row(topic: String, payload: Vec<u8>, qos: i32) -> (m: RetainedMessage)
    ensures
        m.topic == topic,
        m.payload == payload,
        m.qos == spec_qos_from_db(qos),
{
    RetainedMessage::new(topic, payload, qos_from_db(qos))
}

/// A stored will row as a will message, set now.
pub fn will_from_row(
    client_id: String,
    topic: String,
    payload: Vec<u8>,
    qos: i32,
    retain: bool,
    delay_interval: u32,
) -> (w: WillMessage)
    ensures
        w.client_id == client_id,
        w.topic == topic,
        w.payload == payload,
        w.qos == spec_qos_from_db(qos),
        w.retain == retain,
        w.delay_interval == delay_interval,
{
    WillMessage { client_id, topic, payload, qos: qos_from_db(qos), retain, delay_interval, created_at: now() }
}

// ---------------------------------------------------------------------------
// What each event writes
// ---------------------------------------------------------------------------

/// The statements the writer runs on the stored state.
#[derive(Debug, Clone, Copy, PartialEq, Eq, Structural)]
pub enum Statement {
    /// Insert a session row, or update the one of its client.
    UpsertSession,
    /// Delete the session row of a client.
    DeleteSession,
    /// Insert a subscription row, or update the QoS of the same client and filter.
    UpsertSubscription,
    /// Delete the subscription row of a client and filter.
    DeleteSubscription,
    /// Delete every subscription row of a client.
    DeleteClientSubscriptions,
    /// Insert a retained-message row, or update the one of its topic.
    UpsertRetained,
    /// Delete the retained-message row of a topic.
    DeleteRetained,
    /// Insert a will row, or update the one of its client.
    UpsertWill,
    /// Delete the will row of a client.
    DeleteWill,
}

/// A value bound to one of a statement's parameters.
#[derive(Debug)]
pub enum SqlParam {
    Text(String),
    /// Text, or NULL when there is none.
    MaybeText(Option<String>),
    Int(i64),
    Blob(Vec<u8>),
}

pub enum SqlParamView {
    Text(Seq<char>),
    MaybeText(Option<Seq<char>>),
    Int(int),
    Blob(Seq<u8>),
}

impl View for SqlParam {
    type V = SqlParamView;

    open spec fn view(&self) -> SqlParamView {
        match self {
            SqlParam::Text(t) => SqlParamView::Text(t@),
            SqlParam::MaybeText(t) => SqlParamView::MaybeText(opt_string_view(*t)),
            SqlParam::Int(n) => SqlParamView::Int(*n as int),
            SqlParam::Blob(b) => SqlParamView::Blob(b@),
        }
    }
}

pub open spec fn params_view(s: Seq<SqlParam>) -> Seq<SqlParamView> {
    s.map_values(|p: SqlParam| p@)
}

/// A flag as it is stored: 1 or 0.
pub open spec fn flag_value(b: bool) -> int {
    if b {
        1
    } else {
        0
    }
}

/// The statement an event runs and its parameters, in order; nothing for
/// the shutdown signal, which writes nothing.
pub open spec fn spec_event_write(e: EventView) -> Option<(Statement, Seq<SqlParamView>)> {
    match e {
        EventView::SaveSession { client_id, protocol_version, clean_session, keep_alive, username } => Some(
            (
                Statement::UpsertSession,
                seq![
                    SqlParamView::Text(client_id),
                    SqlParamView::Int(protocol_version as int),
                    SqlParamView::Int(flag_value(clean_session)),
                    SqlParamView::Int(keep_alive as int),
                    SqlParamView::MaybeText(username),
                ],
            ),
        ),
        EventView::RemoveSession(c) => Some((Statement::DeleteSession, seq![SqlParamView::Text(c)])),
        EventView::SaveSubscription { client_id, filter, qos } => Some(
            (
                Statement::UpsertSubscription,
                seq![SqlParamView::Text(client_id), SqlParamView::Text(filter), SqlParamView::Int(qos as int)],
            ),
        ),
        EventView::RemoveSubscription { client_id, filter } => Some(
            (Statement::DeleteSubscription, seq![SqlParamView::Text(client_id), SqlParamView::Text(filter)]),
        ),
        EventView::RemoveClientSubscriptions(c) => Some(
            (Statement::DeleteClientSubscriptions, seq![SqlParamView::Text(c)]),
        ),
        EventView::SaveRetained { topic, payload, qos } => Some(
            (
                Statement::UpsertRetained,
                seq![SqlParamView::Text(topic), SqlParamView::Blob(payload), SqlParamView::Int(qos as int)],
            ),
        ),
        EventView::RemoveRetained(t) => Some((Statement::DeleteRetained, seq![SqlParamView::Text(t)])),
        EventView::SaveWill { client_id, topic, payload, qos, retain, delay_interval } => Some(
            (
                Statement::UpsertWill,
                seq![
                    SqlParamView::Text(client_id),
                    SqlParamView::Text(topic),
                    SqlParamView::Blob(payload),
                    SqlParamView::Int(qos as int),
                    SqlParamView::Int(flag_value(retain)),
                    SqlParamView::Int(delay_interval as int),
                ],
            ),
        ),
        EventView::RemoveWill(c) => Some((Statement::DeleteWill, seq![SqlParamView::Text(c)])),
        EventView::Shutdown => None,
    }
}

/// The statement `e` runs and its parameters; `None` for the shutdown signal.
pub fn event_write(e: &PersistEvent) -> (r: Option<(Statement, Vec<SqlParam>)>)
    ensures
        match r {
            Some((st, ps)) => spec_event_write(e@) == Some((st, params_view(ps@))),
            None => spec_event_write(e@) is None,
        },
{
    let mut ps: Vec<SqlParam> = Vec::new();
    let st = match e {
        PersistEvent::SaveSession { client_id, protocol_version, clean_session, keep_alive, username } => {
            ps.push(SqlParam::Text(client_id.clone()));
            ps.push(SqlParam::Int(*protocol_version as i64));
            ps.push(SqlParam::Int(if *clean_session { 1 } else { 0 }));
            ps.push(SqlParam::Int(*keep_alive as i64));
            ps.push(SqlParam::MaybeText(username.clone()));
            Statement::UpsertSession
        },
        PersistEvent::RemoveSession(c) => {
            ps.push(SqlParam::Text(c.clone()));
            Statement::DeleteSession
        },
        PersistEvent::SaveSubscription { client_id, filter, qos } => {
            ps.push(SqlParam::Text(client_id.clone()));
            ps.push(SqlParam::Text(filter.clone()));
            ps.push(SqlParam::Int(*qos as i64));
            Statement::UpsertSubscription
        },
        PersistEvent::RemoveSubscription { client_id, filter } => {
            ps.push(SqlParam::Text(client_id.clone()));
            ps.push(SqlParam::Text(filter.clone()));
            Statement::DeleteSubscription
        },
        PersistEvent::RemoveClientSubscriptions(c) => {
            ps.push(SqlParam::Text(c.clone()));
            Statement::DeleteClientSubscriptions
        },
        PersistEvent::SaveRetained { topic, payload, qos } => {
            ps.push(SqlParam::Text(topic.clone()));
            ps.push(SqlParam::Blob(payload.clone()));
            ps.push(SqlParam::Int(*qos as i64));
            Statement::UpsertRetained
        },
        PersistEvent::RemoveRetained(t) => {
            ps.push(SqlParam::Text(t.clone()));
            Statement::DeleteRetained
        },
        PersistEvent::SaveWill { client_id, topic, payload, qos, retain, delay_interval } => {
            ps.push(SqlParam::Text(client_id.clone()));
            ps.push(SqlParam::Text(topic.clone()));
            ps.push(SqlParam::Blob(payload.clone()));
            ps.push(SqlParam::Int(*qos as i64));
            ps.push(SqlParam::Int(if *retain { 1 } else { 0 }));
            ps.push(SqlParam::Int(*delay_interval as i64));
            Statement::UpsertWill
        },
        PersistEvent::RemoveWill(c) => {
            ps.push(SqlParam::Text(c.clone()));
            Statement::DeleteWill
        },
        PersistEvent::Shutdown => {
            return None;
        },
    };
    assert(params_view(ps@) =~= spec_event_write(e@).unwrap().1);
    Some((st, ps))
}

// ---------------------------------------------------------------------------
// The background writer's batching
// ---------------------------------------------------------------------------

/// Events are written together once this many have gathered.
pub const BATCH_LIMIT: usize = 50;

/// Where the background writer is in its loop.
#[derive(Debug, Clone, Copy, PartialEq, Eq, Structural)]
pub enum WriterPhase {
    /// Waiting for an event, or for the flush interval to pass.
    Waiting,
    /// Taking the events already queued, after one arrived.
    Draining,
    /// Taking what is still queued after a shutdown request, before the last write.
    Closing,
}

/// What the background writer sees next.
#[derive(Debug)]
pub enum WriterInput {
    /// An event came off the channel.
    Event(PersistEvent),
    /// Nothing is queued right now.
    Empty,
    /// The flush interval passed with nothing received.
    Timeout,
    /// The channel is closed and empty.
    Closed,
}

pub enum WriterInputView {
    Event(EventView),
    Empty,
    Timeout,
    Closed,
}

impl View for WriterInput {
    type V = WriterInputView;

    open spec fn view(&self) -> WriterInputView {
        match self {
            WriterInput::Event(e) => WriterInputView::Event(e@),
            WriterInput::Empty => WriterInputView::Empty,
            WriterInput::Timeout => WriterInputView::Timeout,
            WriterInput::Closed => WriterInputView::Closed,
        }
    }
}

/// What the background writer does next.
#[derive(Debug)]
pub enum WriterAction {
    /// Nothing yet.
    Continue,
    /// Write these events in one transaction.
    Write(Vec<PersistEvent>),
    /// Write these events in one transaction, then stop.
    WriteAndStop(Vec<PersistEvent>),
}

pub enum WriterActionView {
    Continue,
    Write(Seq<EventView>),
    WriteAndStop(Seq<EventView>),
}

pub open spec fn events_view(s: Seq<PersistEvent>) -> Seq<EventView> {
    s.map_values(|e: PersistEvent| e@)
}

impl View for WriterAction {
    type V = WriterActionView;

    open spec fn view(&self) -> WriterActionView {
        match self {
            WriterAction::Continue => WriterActionView::Continue,
            WriterAction::Write(v) => WriterActionView::Write(events_view(v@)),
            WriterAction::WriteAndStop(v) => WriterActionView::WriteAndStop(events_view(v@)),
        }
    }
}

/// The background writer's state: the events not yet written, and where it
/// is in its loop.
#[derive(Debug)]
pub struct PersistWriter {
    pub batch: Vec<PersistEvent>,
    pub phase: WriterPhase,
}

/// One step of the writer: its next phase, the events it then holds, and
/// what it does. While waiting, an event starts a drain and a shutdown
/// request (or a closed channel) starts the closing drain; while draining,
/// events gather and are written each time `BATCH_LIMIT` of them have, the
/// rest is written once nothing more is queued, and a shutdown request
/// writes what is held and stops; while closing, events gather until
/// nothing more is queued or another shutdown request comes, and then all
/// is written and the writer stops.
pub open spec fn spec_writer_step(
    phase: WriterPhase,
    batch: Seq<EventView>,
    input: WriterInputView,
) -> (WriterPhase, Seq<EventView>, WriterActionView) {
    match phase {
        WriterPhase::Waiting => match input {
            WriterInputView::Event(EventView::Shutdown) | WriterInputView::Closed => (
                WriterPhase::Closing,
                batch,
                WriterActionView::Continue,
            ),
            WriterInputView::Event(e) => (WriterPhase::Draining, batch.push(e), WriterActionView::Continue),
            _ => if batch.len() > 0 {
                (WriterPhase::Waiting, Seq::empty(), WriterActionView::Write(batch))
            } else {
                (WriterPhase::Waiting, batch, WriterActionView::Continue)
            },
        },
        WriterPhase::Draining => match input {
            WriterInputView::Event(EventView::Shutdown) => (
                WriterPhase::Closing,
                Seq::empty(),
                WriterActionView::WriteAndStop(batch),
            ),
            WriterInputView::Event(e) => if batch.len() + 1 >= BATCH_LIMIT {
                (WriterPhase::Draining, Seq::empty(), WriterActionView::Write(batch.push(e)))
            } else {
                (WriterPhase::Draining, batch.push(e), WriterActionView::Continue)
            },
            _ => if batch.len() > 0 {
                (WriterPhase::Waiting, Seq::empty(), WriterActionView::Write(batch))
            } else {
                (WriterPhase::Waiting, batch, WriterActionView::Continue)
            },
        },
        WriterPhase::Closing => match input {
            WriterInputView::Event(EventView::Shutdown) => (
                WriterPhase::Closing,
                Seq::empty(),
                WriterActionView::WriteAndStop(batch),
            ),
            WriterInputView::Event(e) => (WriterPhase::Closing, batch.push(e), WriterActionView::Continue),
            _ => (WriterPhase::Closing, Seq::empty(), WriterActionView::WriteAndStop(batch)),
        },
    }
}

impl PersistWriter {
    /// A writer waiting, with nothing held.
    pub fn new() -> (w: Self)
        ensures
            w.batch@.len() == 0,
            w.phase == WriterPhase::Waiting,
    {
        PersistWriter { batch: Vec::new(), phase: WriterPhase::Waiting }
    }

    /// Hand out the events held, holding none.
    fn take_batch(&mut self) -> (b: Vec<PersistEvent>)
        ensures
            b@ == old(self).batch@,
            final(self).batch@.len() == 0,
            final(self).phase == old(self).phase,
    {
        let mut b: Vec<PersistEvent> = Vec::new();
        std::mem::swap(&mut b, &mut self.batch);
        b
    }

    /// Take the next input; see `spec_writer_step`.
    pub fn step(&mut self, input: WriterInput) -> (a: WriterAction)
        ensures
            ({
                let (phase, batch, action) = spec_writer_step(old(self).phase, events_view(old(self).batch@), input@);
                &&& final(self).phase == phase
                &&& events_view(final(self).batch@) == batch
                &&& a@ == action
            }),
    {
        let ghost bv = events_view(self.batch@);
        match self.phase {
            WriterPhase::Waiting => match input {
                WriterInput::Event(PersistEvent::Shutdown) | WriterInput::Closed => {
                    self.phase = WriterPhase::Closing;
                    WriterAction::Continue
                },
                WriterInput::Event(e) => {
                    let ghost ev = e@;
                    self.batch.push(e);
                    self.phase = WriterPhase::Draining;
                    assert(events_view(self.batch@) =~= bv.push(ev));
                    WriterAction::Continue
                },
                _ => {
                    if self.batch.len() > 0 {
                        let b = self.take_batch();
                        assert(events_view(self.batch@) =~= Seq::<EventView>::empty());
                        WriterAction::Write(b)
                    } else {
                        WriterAction::Continue
                    }
                },
            },
            WriterPhase::Draining => match input {
                WriterInput::Event(PersistEvent::Shutdown) => {
                    let b = self.take_batch();
                    self.phase = WriterPhase::Closing;
                    assert(events_view(self.batch@) =~= Seq::<EventView>::empty());
                    WriterAction::WriteAndStop(b)
                },
                WriterInput::Event(e) => {
                    let ghost ev = e@;
                    self.batch.push(e);
                    assert(events_view(self.batch@) =~= bv.push(ev));
                    if self.batch.len() >= BATCH_LIMIT {
                        let b = self.take_batch();
                        assert(events_view(self.batch@) =~= Seq::<EventView>::empty());
                        WriterAction::Write(b)
                    } else {
                        WriterAction::Continue
                    }
                },
                _ => {
                    self.phase = WriterPhase::Waiting;
                    if self.batch.len() > 0 {
                        let b = self.take_batch();
                        assert(events_view(self.batch@) =~= Seq::<EventView>::empty());
                        WriterAction::Write(b)
                    } else {
                        WriterAction::Continue
                    }
                },
            },
            WriterPhase::Closing => match input {
                WriterInput::Event(PersistEvent::Shutdown) => {
                    let b = self.take_batch();
                    assert(events_view(self.batch@) =~= Seq::<EventView>::empty());
                    WriterAction::WriteAndStop(b)
                },
                WriterInput::Event(e) => {
                    let ghost ev = e@;
                    self.batch.push(e);
                    assert(events_view(self.batch@) =~= bv.push(ev));
                    WriterAction::Continue
                },
                _ => {
                    let b = self.take_batch();
                    assert(events_view(self.batch@) =~= Seq::<EventView>::empty());
                    WriterAction::WriteAndStop(b)
                },
            },
        }
    }
}

/// The events an action writes.
pub open spec fn written(a: WriterActionView) -> Seq<EventView> {
    match a {
        WriterActionView::Continue => Seq::empty(),
        WriterActionView::Write(b) => b,
        WriterActionView::WriteAndStop(b) => b,
    }
}

/// The event an input brings to be written: the event, unless it is a
/// shutdown request.
pub open spec fn received(input: WriterInputView) -> Seq<EventView> {
    match input {
        WriterInputView::Event(EventView::Shutdown) => Seq::empty(),
        WriterInputView::Event(e) => seq![e],
        _ => Seq::empty(),
    }
}

/// The writer loses, repeats and reorders no event: after each step, what
/// it wrote followed by what it still holds is what it held followed by
/// what it received.
pub proof fn lemma_writer_keeps_events(phase: WriterPhase, batch: Seq<EventView>, input: WriterInputView)
    ensures
        ({
            let (_, after, action) = spec_writer_step(phase, batch, input);
            written(action) + after == batch + received(input)
        }),
{
    let (_, after, action) = spec_writer_step(phase, batch, input);
    assert(written(action) + after =~= batch + received(input));
}

/// The writer holds nothing while it waits, and fewer than `BATCH_LIMIT`
/// events while it drains.
pub open spec fn writer_ok(phase: WriterPhase, batch: Seq<EventView>) -> bool {
    &&& phase == WriterPhase::Waiting ==> batch.len() == 0
    &&& phase == WriterPhase::Draining ==> batch.len() < BATCH_LIMIT
}

/// Every step keeps `writer_ok`: a batch never grows to `BATCH_LIMIT`
/// events before it is written.
pub proof fn lemma_writer_batch_bounded(phase: WriterPhase, batch: Seq<EventView>, input: WriterInputView)
    requires
        writer_ok(phase, batch),
    ensures
        ({
            let (p, b, _) = spec_writer_step(phase, batch, input);
            writer_ok(p, b)
        }),
{
}

} // verus!
