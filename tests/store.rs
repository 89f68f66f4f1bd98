use repopulse::application::{AppError, EventQuery, EventRecord, EventRecordQuery};
use repopulse::domain::{Event, EventType, Source};
use repopulse::infrastructure::InMemoryEventStore;

fn record(id: &str, ty: EventType, subject: &str, labels: &[&str], epoch: i64) -> EventRecord {
    EventRecord {
        event: Event {
            event_id: id.to_string(),
            event_type: ty,
            source: Source::GitHub,
            subject: subject.to_string(),
            old_value: None,
            new_value: "v".to_string(),
            occurred_at: None,
            detected_at: "t".to_string(),
            url: None,
        },
        target_id: "T".to_string(),
        labels: labels.iter().map(|s| s.to_string()).collect(),
        detected_at_epoch: epoch,
    }
}

fn ids(v: &[EventRecord]) -> Vec<String> {
    v.iter().map(|r| r.event.event_id.clone()).collect()
}

fn sample() -> InMemoryEventStore {
    let mut s = InMemoryEventStore::new();
    s.append_record(&record("a", EventType::GitHubRelease, "acme/widget", &["prod", "web"], 100)).unwrap();
    s.append_record(&record("b", EventType::NpmLatest, "left-pad", &["web"], 200)).unwrap();
    s.append_record(&record("c", EventType::GitHubRelease, "acme/gadget", &["prod"], 200)).unwrap();
    s.append_record(&record("d", EventType::GitHubBranch, "acme/widget#main", &["production"], 50)).unwrap();
    s
}

#[test]
fn monotonic_sequence_and_duplicates() {
    let mut s = InMemoryEventStore::new();
    assert_eq!(s.append_record(&record("a", EventType::GitHubRelease, "x", &[], 1)), Ok(Some(1)));
    assert_eq!(s.append_record(&record("b", EventType::GitHubRelease, "x", &[], 1)), Ok(Some(2)));
    assert_eq!(s.append_record(&record("a", EventType::NpmLatest, "y", &[], 9)), Ok(None));
    assert_eq!(s.append_record(&record("c", EventType::GitHubRelease, "x", &[], 1)), Ok(Some(3)));
    let rows = s.list_event_records_cursor(EventRecordQuery { limit: 10, ..Default::default() });
    assert_eq!(rows.iter().map(|(r, _)| *r).collect::<Vec<_>>(), vec![1, 2, 3]);
    assert_eq!(rows[0].1.event.event_type, EventType::GitHubRelease);
}

#[test]
fn list_events_newest_rowid_first() {
    let s = sample();
    let ev: Vec<String> = s.list_events(3).into_iter().map(|e| e.event_id).collect();
    assert_eq!(ev, vec!["d", "c", "b"]);
    assert!(s.list_events(0).is_empty());
}

#[test]
fn filtered_query_orders_by_epoch_then_rowid() {
    let s = sample();
    let r = s.list_event_records_filtered(EventQuery { limit: 10, ..Default::default() });
    assert_eq!(ids(&r), vec!["c", "b", "a", "d"]);
}

#[test]
fn filtered_query_since_bound_is_inclusive() {
    let s = sample();
    let r = s.list_event_records_filtered(EventQuery { since_epoch: Some(100), limit: 10, ..Default::default() });
    assert_eq!(ids(&r), vec!["c", "b", "a"]);
}

#[test]
fn filtered_query_label_matches_whole_labels() {
    let s = sample();
    let r = s.list_event_records_filtered(EventQuery { label: Some("prod".to_string()), limit: 10, ..Default::default() });
    assert_eq!(ids(&r), vec!["c", "a"]);
}

#[test]
fn filtered_query_filters_are_joint() {
    let s = sample();
    let q = EventQuery {
        since_epoch: Some(150),
        label: Some("prod".to_string()),
        event_type: Some(EventType::GitHubRelease),
        subject: Some("acme/gadget".to_string()),
        limit: 10,
    };
    assert_eq!(ids(&s.list_event_records_filtered(q)), vec!["c"]);
    let q = EventQuery {
        label: Some("web".to_string()),
        event_type: Some(EventType::GitHubRelease),
        limit: 10,
        ..Default::default()
    };
    assert_eq!(ids(&s.list_event_records_filtered(q)), vec!["a"]);
    let q = EventQuery { subject: Some("acme/widget".to_string()), limit: 10, ..Default::default() };
    let events: Vec<String> = s.list_events_filtered(q).into_iter().map(|e| e.event_id).collect();
    assert_eq!(events, vec!["a"]);
}

#[test]
fn filtered_query_limit_is_capped() {
    let mut s = InMemoryEventStore::new();
    for i in 0..510 {
        s.append_record(&record(&format!("e{i}"), EventType::NpmLatest, "p", &[], i)).unwrap();
    }
    let r = s.list_event_records_filtered(EventQuery { limit: 1000, ..Default::default() });
    assert_eq!(r.len(), 500);
    assert_eq!(r[0].event.event_id, "e509");
    let r = s.list_event_records_filtered(EventQuery { limit: 2, ..Default::default() });
    assert_eq!(ids(&r), vec!["e509", "e508"]);
    assert!(s.list_event_records_filtered(EventQuery::default()).is_empty());
}

#[test]
fn cursor_query_ascending_after_rowid() {
    let s = sample();
    let rows = s.list_event_records_cursor(EventRecordQuery { after_rowid: Some(1), limit: 10, ..Default::default() });
    assert_eq!(rows.iter().map(|(r, _)| *r).collect::<Vec<_>>(), vec![2, 3, 4]);
    let rows = s.list_event_records_cursor(EventRecordQuery { after_rowid: Some(1), limit: 2, ..Default::default() });
    assert_eq!(rows.iter().map(|(r, _)| *r).collect::<Vec<_>>(), vec![2, 3]);
    let rows = s.list_event_records_cursor(EventRecordQuery {
        label: Some("prod".to_string()),
        limit: 10,
        ..Default::default()
    });
    assert_eq!(rows.iter().map(|(r, _)| *r).collect::<Vec<_>>(), vec![1, 3]);
    let rows = s.list_event_records_cursor(EventRecordQuery { since_epoch: Some(150), limit: 10, ..Default::default() });
    assert_eq!(rows.iter().map(|(r, _)| *r).collect::<Vec<_>>(), vec![2, 3]);
    assert!(s.list_event_records_cursor(EventRecordQuery { after_rowid: Some(4), limit: 10, ..Default::default() }).is_empty());
}

#[test]
fn cooldown_table_overwrites() {
    let mut s = InMemoryEventStore::new();
    assert_eq!(s.get_last_notified("k"), None);
    s.set_last_notified("k", 5);
    s.set_last_notified("j", 6);
    s.set_last_notified("k", 8);
    assert_eq!(s.get_last_notified("k"), Some(8));
    assert_eq!(s.get_last_notified("j"), Some(6));
}

#[test]
fn seen_marks() {
    let mut s = InMemoryEventStore::new();
    assert!(!s.has_seen("a"));
    s.mark_seen("a");
    s.mark_seen("a");
    assert!(s.has_seen("a"));
    assert!(!s.has_seen("b"));
}

#[test]
fn app_error_text() {
    assert_eq!(AppError::Storage("disk".to_string()).describe(), "storage error: disk");
    assert_eq!(AppError::Provider("x".to_string()).describe(), "provider error: x");
    assert_eq!(AppError::Notifier("y".to_string()).describe(), "notifier error: y");
    assert_eq!(AppError::Config("z".to_string()).describe(), "invalid config: z");
}
