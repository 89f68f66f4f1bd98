use repopulse::application::{EventRecord, EventRecordQuery};
use repopulse::domain::{Event, EventType, Source};
use repopulse::infrastructure::{BroadcastPublisher, EventBus, InMemoryEventStore};
use repopulse::interfaces::http_api::build_stream_plan;
use repopulse::interfaces::{StreamSession, StreamUnit};
use repopulse::application::EventPublisher;

fn record(id: &str, label: &str) -> EventRecord {
    EventRecord {
        event: Event {
            event_id: id.to_string(),
            event_type: EventType::GitHubRelease,
            source: Source::GitHub,
            subject: "acme/widget".to_string(),
            old_value: None,
            new_value: id.to_string(),
            occurred_at: None,
            detected_at: "t".to_string(),
            url: None,
        },
        target_id: "T".to_string(),
        labels: vec![label.to_string()],
        detected_at_epoch: 100,
    }
}

fn unit_ids(units: &[StreamUnit]) -> Vec<i64> {
    units
        .iter()
        .map(|u| match u {
            StreamUnit::Replay { id, .. } => *id,
            StreamUnit::Live { id, .. } => *id,
            StreamUnit::Heartbeat { .. } => -1,
        })
        .collect()
}

#[test]
fn resume_without_loss_or_repeat() {
    let mut store = InMemoryEventStore::new();
    for i in 1..=5 {
        store.append_record(&record(&format!("e{i}"), "web")).unwrap();
    }
    // subscribe at 5 rows, two rows land before the replay query runs
    let at_subscribe = 5;
    store.append_record(&record("e6", "web")).unwrap();
    store.append_record(&record("e7", "web")).unwrap();
    let mut session = StreamSession::new(None, Some(3), None, None, None);
    let rows = store.list_event_records_cursor(session.replay_query(200));
    let mut out = session.on_replay(&rows);
    assert!(out.iter().all(|u| matches!(u, StreamUnit::Replay { .. })));
    store.append_record(&record("e8", "web")).unwrap();
    let all = store.list_event_records_cursor(EventRecordQuery { limit: 100, ..Default::default() });
    for (rowid, rec) in all.iter().skip(at_subscribe) {
        if let Some(u) = session.on_live(*rowid, rec) {
            assert!(matches!(u, StreamUnit::Live { .. }));
            out.push(u);
        }
    }
    assert_eq!(unit_ids(&out), vec![4, 5, 6, 7, 8]);
}

#[test]
fn live_rows_are_filtered_like_replay() {
    let mut session = StreamSession::new(None, None, Some("web".to_string()), None, None);
    assert!(session.on_live(1, &record("a", "ops")).is_none());
    assert!(session.on_live(2, &record("b", "web")).is_some());
    assert!(session.on_live(2, &record("b", "web")).is_none());
    assert!(session.on_live(1, &record("a", "web")).is_none());
    let q = session.resync_query(50);
    assert_eq!(q.after_rowid, Some(2));
    assert_eq!(q.limit, 50);
    assert_eq!(q.label, Some("web".to_string()));
}

#[test]
fn heartbeat_carries_time_only() {
    let session = StreamSession::new(None, None, None, None, None);
    assert_eq!(session.heartbeat(42), StreamUnit::Heartbeat { at: 42 });
}

#[test]
fn stream_plan_prefers_last_event_id() {
    let plan = build_stream_plan(None, Some("1h"), None, Some("release"), None, Some("17"), 10_000).unwrap();
    assert_eq!(plan.replay_cap, 20);
    let q = plan.session.replay_query(plan.replay_cap);
    assert_eq!(q.after_rowid, Some(17));
    assert_eq!(q.since_epoch, None);
    assert_eq!(q.event_type, Some(EventType::GitHubRelease));
    let plan = build_stream_plan(Some(999), Some("1h"), None, None, None, Some("junk"), 10_000).unwrap();
    assert_eq!(plan.replay_cap, 200);
    let q = plan.session.replay_query(plan.replay_cap);
    assert_eq!(q.after_rowid, None);
    assert_eq!(q.since_epoch, Some(6_400));
}

#[test]
fn bus_delivers_published_rows() {
    let bus = EventBus::new(16);
    let mut rx = bus.subscribe();
    let publisher = BroadcastPublisher::new(bus);
    publisher.publish(7, &record("x", "web")).unwrap();
    let (rowid, rec) = rx.try_recv().unwrap();
    assert_eq!(rowid, 7);
    assert_eq!(rec.event.event_id, "x");
}

#[test]
fn bus_reports_lag_to_slow_subscriber() {
    let bus = EventBus::new(2);
    let mut rx = bus.subscribe();
    for i in 1..=5 {
        bus.publish(i, record(&format!("e{i}"), "web"));
    }
    assert!(matches!(rx.try_recv(), Err(tokio::sync::broadcast::error::TryRecvError::Lagged(_))));
}
