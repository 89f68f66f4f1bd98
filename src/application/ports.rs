use vstd::prelude::*;
use vstd::string::*;

use crate::domain::event::{copy_opt_text, opt_text, Event, EventType, EventView};
use crate::domain::watch_target::WatchTarget;

verus! {

/// The failures of the system, by where they arise.
#[derive(Clone, Debug, PartialEq, Eq)]
pub enum AppError {
    Provider(String),
    Storage(String),
    Notifier(String),
    Config(String),
}

/// The human-readable text of an error.
pub open spec fn app_error_text(e: AppError) -> Seq<char> {
    match e {
        AppError::Provider(m) => "provider error: "@ + m@,
        AppError::Storage(m) => "storage error: "@ + m@,
        AppError::Notifier(m) => "notifier error: "@ + m@,
        AppError::Config(m) => "invalid config: "@ + m@,
    }
}

impl AppError {
    /// The human-readable text of this error.
    pub fn describe(&self) -> (r: String)
        ensures
            r@ == app_error_text(*self),
    {
        let (mut out, m) = match self {
            AppError::Provider(m) => (String::from_str("provider error: "), m),
            AppError::Storage(m) => (String::from_str("storage error: "), m),
            AppError::Notifier(m) => (String::from_str("notifier error: "), m),
            AppError::Config(m) => (String::from_str("invalid config: "), m),
        };
        out.append(m.as_str());
        out
    }
}

/// The views of a list of strings.
pub open spec fn texts(v: Seq<String>) -> Seq<Seq<char>> {
    v.map_values(|s: String| s@)
}

/// A copy of a list of strings with the same texts.
pub fn copy_texts(v: &Vec<String>) -> (r: Vec<String>)
    ensures
        texts(r@) == texts(v@),
{
    let mut out: Vec<String> = Vec::new();
    let mut i: usize = 0;
    while i < v.len()
        invariant
            i <= v.len(),
            out@.len() == i,
            forall|j: int| 0 <= j < i ==> out@[j]@ == v@[j]@,
        decreases v.len() - i,
    {
        out.push(v[i].clone());
        i = i + 1;
    }
    assert(texts(out@) =~= texts(v@));
    out
}

/// An event with the context it was stored in.
#[derive(Clone, Debug, PartialEq, Eq)]
pub struct EventRecord {
    pub event: Event,
    pub target_id: String,
    /// The target's labels when the change was detected.
    pub labels: Vec<String>,
    pub detected_at_epoch: i64,
}

/// The mathematical content of an [`EventRecord`].
pub struct RecordView {
    pub event: EventView,
    pub target_id: Seq<char>,
    pub labels: Seq<Seq<char>>,
    pub detected_at_epoch: i64,
}

impl View for EventRecord {
    type V = RecordView;

    open spec fn view(&self) -> RecordView {
        RecordView {
            event: self.event@,
            target_id: self.target_id@,
            labels: texts(self.labels@),
            detected_at_epoch: self.detected_at_epoch,
        }
    }
}

impl EventRecord {
    /// A copy with the same content.
    pub fn duplicate(&self) -> (r: EventRecord)
        ensures
            r@ == self@,
    {
        EventRecord {
            event: self.event.duplicate(),
            target_id: self.target_id.clone(),
            labels: copy_texts(&self.labels),
            detected_at_epoch: self.detected_at_epoch,
        }
    }
}

/// The views of a list of records.
pub open spec fn record_views(v: Seq<EventRecord>) -> Seq<RecordView> {
    v.map_values(|r: EventRecord| r@)
}

/// The views of a list of events.
pub open spec fn event_views(v: Seq<Event>) -> Seq<EventView> {
    v.map_values(|e: Event| e@)
}

/// The views of a list of `(rowid, record)` pairs.
pub open spec fn row_views(v: Seq<(i64, EventRecord)>) -> Seq<(int, RecordView)> {
    v.map_values(|p: (i64, EventRecord)| (p.0 as int, p.1@))
}

/// The filters of a query; `None` imposes no constraint.
pub struct FilterView {
    pub since_epoch: Option<i64>,
    pub label: Option<Seq<char>>,
    pub event_type: Option<EventType>,
    pub subject: Option<Seq<char>>,
}

/// A record passes every filter that is given.
pub open spec fn filter_matches(f: FilterView, r: RecordView) -> bool {
    &&& (f.since_epoch matches Some(t) ==> r.detected_at_epoch >= t)
    &&& (f.label matches Some(l) ==> r.labels.contains(l))
    &&& (f.event_type matches Some(t) ==> r.event.event_type == t)
    &&& (f.subject matches Some(s) ==> r.event.subject == s)
}

/// `labels` holds `label` as one whole entry.
pub fn has_label(labels: &Vec<String>, label: &String) -> (r: bool)
    ensures
        r == texts(labels@).contains(label@),
{
    let mut i: usize = 0;
    while i < labels.len()
        invariant
            i <= labels.len(),
            forall|j: int| 0 <= j < i ==> labels@[j]@ != label@,
        decreases labels.len() - i,
    {
        if labels[i] == *label {
            assert(texts(labels@)[i as int] == label@);
            return true;
        }
        i = i + 1;
    }
    assert(!texts(labels@).contains(label@)) by {
        if texts(labels@).contains(label@) {
            let j = choose|j: int| 0 <= j < texts(labels@).len() && texts(labels@)[j] == label@;
            assert(labels@[j]@ == label@);
        }
    }
    false
}

/// Exec form of [`filter_matches`].
pub fn record_passes(
    since_epoch: Option<i64>,
    label: &Option<String>,
    event_type: Option<EventType>,
    subject: &Option<String>,
    r: &EventRecord,
) -> (ok: bool)
    ensures
        ok == filter_matches(
            FilterView {
                since_epoch,
                label: opt_text(*label),
                event_type,
                subject: opt_text(*subject),
            },
            r@,
        ),
{
    if let Some(t) = since_epoch {
        if r.detected_at_epoch < t {
            return false;
        }
    }
    if let Some(l) = label {
        if !has_label(&r.labels, l) {
            return false;
        }
    }
    if let Some(t) = event_type {
        if r.event.event_type != t {
            return false;
        }
    }
    if let Some(s) = subject {
        if r.event.subject != *s {
            return false;
        }
    }
    true
}

/// A newest-first query.
#[derive(Clone, Debug, Default)]
pub struct EventQuery {
    pub since_epoch: Option<i64>,
    /// At most this many results, and never more than 500.
    pub limit: u32,
    pub label: Option<String>,
    pub event_type: Option<EventType>,
    pub subject: Option<String>,
}

impl EventQuery {
    pub open spec fn filter(&self) -> FilterView {
        FilterView {
            since_epoch: self.since_epoch,
            label: opt_text(self.label),
            event_type: self.event_type,
            subject: opt_text(self.subject),
        }
    }
}

/// An oldest-first query for replay, optionally after a rowid.
#[derive(Clone, Debug, Default)]
pub struct EventRecordQuery {
    pub since_epoch: Option<i64>,
    /// Only rows with a greater rowid.
    pub after_rowid: Option<i64>,
    pub limit: u32,
    pub label: Option<String>,
    pub event_type: Option<EventType>,
    pub subject: Option<String>,
}

impl EventRecordQuery {
    pub open spec fn filter(&self) -> FilterView {
        FilterView {
            since_epoch: self.since_epoch,
            label: opt_text(self.label),
            event_type: self.event_type,
            subject: opt_text(self.subject),
        }
    }
}

/// Produces an event when a target has changed.
pub trait WatchProvider {
    fn check(&self, target: &WatchTarget) -> Result<Option<Event>, AppError>;
}

/// Supplies the targets to poll.
pub trait TargetRepository {
    fn list_enabled_targets(&self) -> Result<Vec<WatchTarget>, AppError>;
}

/// Delivers a notification of a change.
pub trait Notifier {
    fn notify(&self, event: &Event) -> Result<(), AppError>;
}

/// Announces a newly stored row to live subscribers.
pub trait EventPublisher {
    fn publish(&self, rowid: i64, record: &EventRecord) -> Result<(), AppError>;
}

/// Persists events, the idempotency marks and the cooldown table, and answers queries.
pub trait EventStore {
    fn has_seen(&self, event_id: &str) -> Result<bool, AppError>;

    fn mark_seen(&mut self, event_id: &str) -> Result<(), AppError>;

    fn append_event(&mut self, event: &Event) -> Result<(), AppError>;

    fn append_event_record(&mut self, record: &EventRecord) -> Result<(), AppError>;

    fn list_events(&self, limit: u32) -> Result<Vec<Event>, AppError>;

    fn list_events_filtered(&self, query: EventQuery) -> Result<Vec<Event>, AppError>;

    fn list_event_records_filtered(&self, query: EventQuery) -> Result<Vec<EventRecord>, AppError>;

    fn list_event_records_cursor(&self, query: EventRecordQuery) -> Result<Vec<(i64, EventRecord)>, AppError>;

    fn get_last_notified(&self, scope_key: &str) -> Result<Option<i64>, AppError>;

    fn set_last_notified(&mut self, scope_key: &str, epoch_seconds: i64) -> Result<(), AppError>;
}

} // verus!
