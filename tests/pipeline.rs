use std::cell::{Cell, RefCell};

use repopulse::application::{
    AppError, EventPublisher, EventRecord, EventStore, HandleEventUseCase, Handled, Notifier,
    RunOnceUseCase, TargetOutcome, TargetRepository, WatchProvider,
};
use repopulse::domain::{CooldownScope, Event, EventType, RepoId, Source, WatchKind, WatchTarget};
use repopulse::infrastructure::{FakeWatchProvider, InMemoryEventStore, InMemoryTargetRepository};

struct CountingNotifier {
    count: Cell<u32>,
}

impl CountingNotifier {
    fn new() -> Self {
        CountingNotifier { count: Cell::new(0) }
    }
    fn get(&self) -> u32 {
        self.count.get()
    }
}

impl Notifier for CountingNotifier {
    fn notify(&self, _event: &Event) -> Result<(), AppError> {
        self.count.set(self.count.get() + 1);
        Ok(())
    }
}

struct FailingNotifier;

impl Notifier for FailingNotifier {
    fn notify(&self, _event: &Event) -> Result<(), AppError> {
        Err(AppError::Notifier("webhook down".to_string()))
    }
}

struct RecordingPublisher {
    rows: RefCell<Vec<(i64, String)>>,
}

impl RecordingPublisher {
    fn new() -> Self {
        RecordingPublisher { rows: RefCell::new(Vec::new()) }
    }
}

impl EventPublisher for RecordingPublisher {
    fn publish(&self, rowid: i64, record: &EventRecord) -> Result<(), AppError> {
        self.rows.borrow_mut().push((rowid, record.event.event_id.clone()));
        Ok(())
    }
}

/// Returns whatever value it currently holds for every target.
struct ScriptedProvider {
    next: RefCell<Option<String>>,
}

impl WatchProvider for ScriptedProvider {
    fn check(&self, target: &WatchTarget) -> Result<Option<Event>, AppError> {
        let v = match &*self.next.borrow() {
            Some(v) => v.clone(),
            None => return Ok(None),
        };
        let subject = target.kind.subject();
        Ok(Some(Event {
            event_id: Event::make_event_id(&EventType::GitHubRelease, &subject, &v),
            event_type: EventType::GitHubRelease,
            source: Source::GitHub,
            subject,
            old_value: None,
            new_value: v,
            occurred_at: None,
            detected_at: "now".to_string(),
            url: None,
        }))
    }
}

struct BrokenProvider;

impl WatchProvider for BrokenProvider {
    fn check(&self, _target: &WatchTarget) -> Result<Option<Event>, AppError> {
        Err(AppError::Provider("timeout".to_string()))
    }
}

struct BrokenRepository;

impl TargetRepository for BrokenRepository {
    fn list_enabled_targets(&self) -> Result<Vec<WatchTarget>, AppError> {
        Err(AppError::Config("no targets".to_string()))
    }
}

fn release_target(id: &str, repo: &str) -> WatchTarget {
    WatchTarget {
        id: id.to_string(),
        enabled: true,
        labels: vec![],
        kind: WatchKind::GitHubRelease { repo: RepoId::parse(repo).unwrap() },
    }
}

fn event(id: &str, value: &str) -> Event {
    Event {
        event_id: id.to_string(),
        event_type: EventType::GitHubRelease,
        source: Source::GitHub,
        subject: "acme/widget".to_string(),
        old_value: None,
        new_value: value.to_string(),
        occurred_at: None,
        detected_at: "t".to_string(),
        url: None,
    }
}

#[test]
fn should_notify_only_once_for_same_event() {
    let repo = RepoId::parse("pedroslopez/whatsapp-web.js").unwrap();
    let targets = vec![WatchTarget {
        id: "github:pedroslopez/whatsapp-web.js:release".to_string(),
        enabled: true,
        labels: vec![],
        kind: WatchKind::GitHubRelease { repo },
    }];

    let target_repo = InMemoryTargetRepository::new(targets);
    let provider = FakeWatchProvider::new();
    let mut store = InMemoryEventStore::new();
    let notifier = CountingNotifier::new();
    let publisher = RecordingPublisher::new();

    let handle_event = HandleEventUseCase { cooldown_seconds: 0, scope: CooldownScope::ByTargetAndType };
    let run_once = RunOnceUseCase { handle_event };

    run_once.execute(&target_repo, &provider, &mut store, &notifier, &publisher, 100).unwrap();
    run_once.execute(&target_repo, &provider, &mut store, &notifier, &publisher, 200).unwrap();

    assert_eq!(notifier.get(), 1);
}

#[test]
fn idempotent_ingestion_stores_one_row_and_notifies_once() {
    let mut store = InMemoryEventStore::new();
    let notifier = CountingNotifier::new();
    let publisher = RecordingPublisher::new();
    let uc = HandleEventUseCase { cooldown_seconds: 0, scope: CooldownScope::ByTargetAndType };
    let e = event("GitHubRelease|acme/widget|v1", "v1");
    let first = uc.execute(&mut store, &notifier, &publisher, &e, &"T1".to_string(), &vec!["x".to_string()], 10);
    let second = uc.execute(&mut store, &notifier, &publisher, &e, &"T2".to_string(), &vec![], 20);
    assert_eq!(first, Ok(Handled::Notified { rowid: Some(1) }));
    assert_eq!(second, Ok(Handled::AlreadySeen));
    assert_eq!(store.list_events(10).len(), 1);
    assert_eq!(notifier.get(), 1);
    assert_eq!(*publisher.rows.borrow(), vec![(1, "GitHubRelease|acme/widget|v1".to_string())]);
}

#[test]
fn lost_seen_marks_are_covered_by_store_idempotency() {
    let mut store = InMemoryEventStore::new();
    let e = event("GitHubRelease|acme/widget|v1", "v1");
    let record = EventRecord { event: e.clone(), target_id: "T1".to_string(), labels: vec![], detected_at_epoch: 5 };
    assert_eq!(store.append_record(&record), Ok(Some(1)));
    let notifier = CountingNotifier::new();
    let publisher = RecordingPublisher::new();
    let uc = HandleEventUseCase { cooldown_seconds: 0, scope: CooldownScope::ByTargetAndType };
    let r = uc.execute(&mut store, &notifier, &publisher, &e, &"T1".to_string(), &vec![], 10);
    assert_eq!(r, Ok(Handled::Notified { rowid: None }));
    assert_eq!(store.list_events(10).len(), 1);
    assert!(publisher.rows.borrow().is_empty());
    assert!(store.has_seen("GitHubRelease|acme/widget|v1"));
}

#[test]
fn cooldown_scenario_b() {
    let mut store = InMemoryEventStore::new();
    let notifier = CountingNotifier::new();
    let publisher = RecordingPublisher::new();
    let uc = HandleEventUseCase { cooldown_seconds: 60, scope: CooldownScope::ByTargetAndType };
    let t1 = "T1".to_string();
    let r0 = uc.execute(&mut store, &notifier, &publisher, &event("a", "1"), &t1, &vec![], 0);
    assert_eq!(r0, Ok(Handled::Notified { rowid: Some(1) }));
    assert_eq!(store.get_last_notified("T1|GitHubRelease"), Some(0));
    let r30 = uc.execute(&mut store, &notifier, &publisher, &event("b", "2"), &t1, &vec![], 30);
    assert_eq!(r30, Ok(Handled::CoolingDown { rowid: Some(2) }));
    assert_eq!(notifier.get(), 1);
    let r61 = uc.execute(&mut store, &notifier, &publisher, &event("c", "3"), &t1, &vec![], 61);
    assert_eq!(r61, Ok(Handled::Notified { rowid: Some(3) }));
    assert_eq!(notifier.get(), 2);
    assert_eq!(store.get_last_notified("T1|GitHubRelease"), Some(61));
    assert_eq!(store.list_events(10).len(), 3);
}

#[test]
fn cooldown_boundary_is_inclusive() {
    let mut store = InMemoryEventStore::new();
    let notifier = CountingNotifier::new();
    let publisher = RecordingPublisher::new();
    let uc = HandleEventUseCase { cooldown_seconds: 60, scope: CooldownScope::ByTargetAndType };
    let t1 = "T1".to_string();
    uc.execute(&mut store, &notifier, &publisher, &event("a", "1"), &t1, &vec![], 100).unwrap();
    let r59 = uc.execute(&mut store, &notifier, &publisher, &event("b", "2"), &t1, &vec![], 159).unwrap();
    assert_eq!(r59, Handled::CoolingDown { rowid: Some(2) });
    let r60 = uc.execute(&mut store, &notifier, &publisher, &event("c", "3"), &t1, &vec![], 160).unwrap();
    assert_eq!(r60, Handled::Notified { rowid: Some(3) });
}

#[test]
fn cooldown_by_target_shares_key_across_types() {
    let mut store = InMemoryEventStore::new();
    let notifier = CountingNotifier::new();
    let publisher = RecordingPublisher::new();
    let uc = HandleEventUseCase { cooldown_seconds: 60, scope: CooldownScope::ByTarget };
    let t1 = "T1".to_string();
    uc.execute(&mut store, &notifier, &publisher, &event("a", "1"), &t1, &vec![], 0).unwrap();
    let mut other = event("b", "2");
    other.event_type = EventType::NpmLatest;
    let r = uc.execute(&mut store, &notifier, &publisher, &other, &t1, &vec![], 10).unwrap();
    assert_eq!(r, Handled::CoolingDown { rowid: Some(2) });
    assert_eq!(store.get_last_notified("T1"), Some(0));
}

#[test]
fn notifier_failure_keeps_row_and_seen_mark() {
    let mut store = InMemoryEventStore::new();
    let publisher = RecordingPublisher::new();
    let uc = HandleEventUseCase { cooldown_seconds: 60, scope: CooldownScope::ByTargetAndType };
    let e = event("a", "1");
    let r = uc.execute(&mut store, &FailingNotifier, &publisher, &e, &"T1".to_string(), &vec![], 0);
    assert_eq!(r, Err(AppError::Notifier("webhook down".to_string())));
    assert!(store.has_seen("a"));
    assert_eq!(store.list_events(10).len(), 1);
    assert_eq!(store.get_last_notified("T1|GitHubRelease"), None);
    assert_eq!(publisher.rows.borrow().len(), 1);
}

#[test]
fn end_to_end_scenario_a() {
    let target = release_target("github:acme/widget:release", "acme/widget");
    let repo = InMemoryTargetRepository::new(vec![target]);
    let provider = ScriptedProvider { next: RefCell::new(Some("v2.0.0".to_string())) };
    let mut store = InMemoryEventStore::new();
    let notifier = CountingNotifier::new();
    let publisher = RecordingPublisher::new();
    let run = RunOnceUseCase { handle_event: HandleEventUseCase { cooldown_seconds: 0, scope: CooldownScope::ByTargetAndType } };

    let first = run.execute(&repo, &provider, &mut store, &notifier, &publisher, 1000).unwrap();
    assert_eq!(first, vec![TargetOutcome::Handled(Handled::Notified { rowid: Some(1) })]);
    let events = store.list_events(10);
    assert_eq!(events[0].event_id, "GitHubRelease|acme/widget|v2.0.0");
    assert_eq!(notifier.get(), 1);

    let second = run.execute(&repo, &provider, &mut store, &notifier, &publisher, 1100).unwrap();
    assert_eq!(second, vec![TargetOutcome::Handled(Handled::AlreadySeen)]);
    assert_eq!(store.list_events(10).len(), 1);
    assert_eq!(notifier.get(), 1);

    *provider.next.borrow_mut() = Some("v2.1.0".to_string());
    let third = run.execute(&repo, &provider, &mut store, &notifier, &publisher, 1200).unwrap();
    assert_eq!(third, vec![TargetOutcome::Handled(Handled::Notified { rowid: Some(2) })]);
    assert_eq!(notifier.get(), 2);
    let rows = store.list_event_records_cursor(repopulse::application::EventRecordQuery {
        limit: 10,
        ..Default::default()
    });
    assert_eq!(rows.iter().map(|(r, _)| *r).collect::<Vec<_>>(), vec![1, 2]);
    assert_eq!(rows[1].1.event.event_id, "GitHubRelease|acme/widget|v2.1.0");
}

#[test]
fn cycle_isolates_target_failures() {
    let run = RunOnceUseCase { handle_event: HandleEventUseCase { cooldown_seconds: 0, scope: CooldownScope::ByTargetAndType } };
    let mut disabled = release_target("off", "a/b");
    disabled.enabled = false;
    let targets = vec![release_target("one", "a/b"), disabled, release_target("two", "c/d")];
    let mut store = InMemoryEventStore::new();
    let notifier = CountingNotifier::new();
    let publisher = RecordingPublisher::new();
    let out = run.run_targets(&targets, &BrokenProvider, &mut store, &notifier, &publisher, 0);
    assert_eq!(
        out,
        vec![
            TargetOutcome::ProviderFailed(AppError::Provider("timeout".to_string())),
            TargetOutcome::Skipped,
            TargetOutcome::ProviderFailed(AppError::Provider("timeout".to_string())),
        ]
    );
    let quiet = ScriptedProvider { next: RefCell::new(None) };
    let out = run.run_targets(&targets, &quiet, &mut store, &notifier, &publisher, 0);
    assert_eq!(out, vec![TargetOutcome::NoChange, TargetOutcome::Skipped, TargetOutcome::NoChange]);
    assert!(store.list_events(10).is_empty());
}

#[test]
fn cycle_fails_only_without_target_list() {
    let run = RunOnceUseCase { handle_event: HandleEventUseCase { cooldown_seconds: 0, scope: CooldownScope::ByTargetAndType } };
    let mut store = InMemoryEventStore::new();
    let notifier = CountingNotifier::new();
    let publisher = RecordingPublisher::new();
    let r = run.execute(&BrokenRepository, &FakeWatchProvider::new(), &mut store, &notifier, &publisher, 0);
    assert_eq!(r, Err(AppError::Config("no targets".to_string())));
}

#[test]
fn target_repository_lists_enabled_in_order() {
    let mut off = release_target("off", "a/b");
    off.enabled = false;
    let repo = InMemoryTargetRepository::new(vec![release_target("one", "a/b"), off, release_target("two", "c/d")]);
    let ids: Vec<String> = repo.list_enabled_targets().unwrap().into_iter().map(|t| t.id).collect();
    assert_eq!(ids, vec!["one".to_string(), "two".to_string()]);
}

#[test]
fn store_trait_round_trip() {
    let mut store = InMemoryEventStore::new();
    let s: &mut dyn EventStore = &mut store;
    assert_eq!(s.has_seen("x"), Ok(false));
    s.mark_seen("x").unwrap();
    assert_eq!(s.has_seen("x"), Ok(true));
    s.append_event(&event("x", "1")).unwrap();
    s.append_event(&event("x", "1")).unwrap();
    assert_eq!(s.list_events(5).unwrap().len(), 1);
    s.set_last_notified("k", 7).unwrap();
    s.set_last_notified("k", 9).unwrap();
    assert_eq!(s.get_last_notified("k"), Ok(Some(9)));
    assert_eq!(s.get_last_notified("other"), Ok(None));
}

#[test]
fn pipeline_from_policy() {
    let uc = HandleEventUseCase::from_policy(repopulse::domain::CooldownPolicy {
        cooldown_seconds: 45,
        scope: CooldownScope::ByTarget,
    });
    assert_eq!(uc.cooldown_seconds, 45);
    assert_eq!(uc.scope, CooldownScope::ByTarget);
}
