use atom_mqtt::common::{ProtocolVersion, QoS};
use atom_mqtt::persistence::{
    qos_from_db, qos_to_db, retained_from_row, session_from_row, subscription_from_row, version_from_db,
    version_to_db, will_from_row, event_write, SqlParam, Statement, PersistEvent, PersistWriter, WriterAction, WriterInput, WriterPhase, BATCH_LIMIT,
};

fn ev(n: usize) -> PersistEvent {
    PersistEvent::RemoveSession(format!("c{n}"))
}

#[test]
fn db_conversions() {
    assert_eq!(qos_to_db(QoS::ExactlyOnce), 2);
    assert_eq!(qos_from_db(1), QoS::AtLeastOnce);
    assert_eq!(qos_from_db(7), QoS::AtMostOnce);
    assert_eq!(version_to_db(ProtocolVersion::V5), 5);
    assert_eq!(version_to_db(ProtocolVersion::V311), 4);
    assert_eq!(version_from_db(5), ProtocolVersion::V5);
    assert_eq!(version_from_db(3), ProtocolVersion::V311);
    for q in [QoS::AtMostOnce, QoS::AtLeastOnce, QoS::ExactlyOnce] {
        assert_eq!(qos_from_db(qos_to_db(q)), q);
    }
}

#[test]
fn rows_become_values() {
    let s = session_from_row("c1".into(), 5, true, 30, Some("u".into()));
    assert_eq!(s.client_id, "c1");
    assert_eq!(s.protocol_version, ProtocolVersion::V5);
    assert!(s.clean_session && !s.connected);
    assert_eq!(s.keep_alive, 30);
    let (c, f, q) = subscription_from_row("c1".into(), "a/#".into(), 2);
    assert_eq!((c.as_str(), f.as_str(), q), ("c1", "a/#", QoS::ExactlyOnce));
    let m = retained_from_row("t".into(), vec![1, 2], 1);
    assert_eq!(m.qos, QoS::AtLeastOnce);
    let w = will_from_row("c1".into(), "w".into(), vec![9], 0, true, 10);
    assert_eq!(w.topic, "w");
    assert!(w.retain);
    assert_eq!(w.delay_interval, 10);
}

#[test]
fn writer_batches_until_queue_is_empty() {
    let mut w = PersistWriter::new();
    assert!(matches!(w.step(WriterInput::Timeout), WriterAction::Continue));
    assert!(matches!(w.step(WriterInput::Event(ev(1))), WriterAction::Continue));
    assert_eq!(w.phase, WriterPhase::Draining);
    assert!(matches!(w.step(WriterInput::Event(ev(2))), WriterAction::Continue));
    match w.step(WriterInput::Empty) {
        WriterAction::Write(b) => assert_eq!(b.len(), 2),
        other => panic!("unexpected {other:?}"),
    }
    assert_eq!(w.phase, WriterPhase::Waiting);
    assert!(w.batch.is_empty());
}

#[test]
fn writer_flushes_at_batch_limit() {
    let mut w = PersistWriter::new();
    let mut writes = 0;
    for i in 0..BATCH_LIMIT {
        match w.step(WriterInput::Event(ev(i))) {
            WriterAction::Write(b) => {
                assert_eq!(b.len(), BATCH_LIMIT);
                writes += 1;
            }
            WriterAction::Continue => {}
            other => panic!("unexpected {other:?}"),
        }
    }
    assert_eq!(writes, 1);
    assert!(w.batch.is_empty());
    assert_eq!(w.phase, WriterPhase::Draining);
}

#[test]
fn writer_shutdown_writes_and_stops() {
    // A shutdown request while draining writes what is held.
    let mut w = PersistWriter::new();
    w.step(WriterInput::Event(ev(1)));
    match w.step(WriterInput::Event(PersistEvent::Shutdown)) {
        WriterAction::WriteAndStop(b) => assert_eq!(b.len(), 1),
        other => panic!("unexpected {other:?}"),
    }
    // A shutdown request while waiting first takes what is still queued.
    let mut w = PersistWriter::new();
    assert!(matches!(w.step(WriterInput::Event(PersistEvent::Shutdown)), WriterAction::Continue));
    assert_eq!(w.phase, WriterPhase::Closing);
    w.step(WriterInput::Event(ev(1)));
    w.step(WriterInput::Event(ev(2)));
    match w.step(WriterInput::Empty) {
        WriterAction::WriteAndStop(b) => assert_eq!(b.len(), 2),
        other => panic!("unexpected {other:?}"),
    }
    // A closed channel while waiting ends the same way.
    let mut w = PersistWriter::new();
    w.step(WriterInput::Closed);
    assert!(matches!(w.step(WriterInput::Closed), WriterAction::WriteAndStop(_)));
}

fn texts(ps: &[SqlParam]) -> Vec<String> {
    ps.iter()
        .map(|p| match p {
            SqlParam::Text(t) => format!("T:{t}"),
            SqlParam::MaybeText(Some(t)) => format!("T:{t}"),
            SqlParam::MaybeText(None) => "NULL".to_string(),
            SqlParam::Int(n) => format!("I:{n}"),
            SqlParam::Blob(b) => format!("B:{b:?}"),
        })
        .collect()
}

#[test]
fn events_become_statements() {
    let (st, ps) = event_write(&PersistEvent::SaveSession {
        client_id: "c1".into(),
        protocol_version: 5,
        clean_session: true,
        keep_alive: 30,
        username: None,
    })
    .unwrap();
    assert_eq!(st, Statement::UpsertSession);
    assert_eq!(texts(&ps), vec!["T:c1", "I:5", "I:1", "I:30", "NULL"]);
    let (st, ps) = event_write(&PersistEvent::SaveWill {
        client_id: "c2".into(),
        topic: "t".into(),
        payload: vec![7, 8],
        qos: 1,
        retain: false,
        delay_interval: 9,
    })
    .unwrap();
    assert_eq!(st, Statement::UpsertWill);
    assert_eq!(texts(&ps), vec!["T:c2", "T:t", "B:[7, 8]", "I:1", "I:0", "I:9"]);
    let (st, ps) = event_write(&PersistEvent::RemoveSubscription { client_id: "c".into(), filter: "a/#".into() }).unwrap();
    assert_eq!(st, Statement::DeleteSubscription);
    assert_eq!(texts(&ps), vec!["T:c", "T:a/#"]);
    let (st, _) = event_write(&PersistEvent::RemoveClientSubscriptions("c".into())).unwrap();
    assert_eq!(st, Statement::DeleteClientSubscriptions);
    assert!(event_write(&PersistEvent::Shutdown).is_none());
}
