use vstd::prelude::*;
use vstd::string::*;

use super::types::Source;

verus! {

/// The kind of change an event reports.
#[derive(Clone, Copy, Debug, PartialEq, Eq, Structural)]
pub enum EventType {
    GitHubRelease,
    GitHubBranch,
    NpmLatest,
    WhatsAppWebVersion,
}

/// The name of an event type as it appears in ids, scope keys and storage.
pub open spec fn event_type_text(t: EventType) -> Seq<char> {
    match t {
        EventType::GitHubRelease => "GitHubRelease"@,
        EventType::GitHubBranch => "GitHubBranch"@,
        EventType::NpmLatest => "NpmLatest"@,
        EventType::WhatsAppWebVersion => "WhatsAppWebVersion"@,
    }
}

impl EventType {
    /// The name of this event type (`GitHubRelease`, ...).
    pub fn name(&self) -> (r: &'static str)
        ensures
            r@ == event_type_text(*self),
    {
        match self {
            EventType::GitHubRelease => "GitHubRelease",
            EventType::GitHubBranch => "GitHubBranch",
            EventType::NpmLatest => "NpmLatest",
            EventType::WhatsAppWebVersion => "WhatsAppWebVersion",
        }
    }

    /// The event type whose name is `t`, if any.
    pub fn from_name(t: &str) -> (r: Option<EventType>)
        ensures
            r matches Some(x) ==> event_type_text(x) == t@,
            r is None ==> forall|x: EventType| event_type_text(x) != t@,
    {
        let s = String::from_str(t);
        if s == String::from_str("GitHubRelease") {
            Some(EventType::GitHubRelease)
        } else if s == String::from_str("GitHubBranch") {
            Some(EventType::GitHubBranch)
        } else if s == String::from_str("NpmLatest") {
            Some(EventType::NpmLatest)
        } else if s == String::from_str("WhatsAppWebVersion") {
            Some(EventType::WhatsAppWebVersion)
        } else {
            None
        }
    }
}

/// The view of an optional string.
pub open spec fn opt_text(o: Option<String>) -> Option<Seq<char>> {
    match o {
        Some(s) => Some(s@),
        None => None,
    }
}

/// A copy of an optional string with the same text.
pub fn copy_opt_text(o: &Option<String>) -> (r: Option<String>)
    ensures
        opt_text(r) == opt_text(*o),
{
    match o {
        Some(s) => Some(s.clone()),
        None => None,
    }
}

/// One detected change.
#[derive(Clone, Debug, PartialEq, Eq)]
pub struct Event {
    /// Idempotency key: a function of type, subject and new value.
    pub event_id: String,
    pub event_type: EventType,
    pub source: Source,
    pub subject: String,
    pub old_value: Option<String>,
    pub new_value: String,
    /// Upstream time, when known.
    pub occurred_at: Option<String>,
    /// Local detection time.
    pub detected_at: String,
    pub url: Option<String>,
}

/// The mathematical content of an [`Event`].
pub struct EventView {
    pub event_id: Seq<char>,
    pub event_type: EventType,
    pub source: Source,
    pub subject: Seq<char>,
    pub old_value: Option<Seq<char>>,
    pub new_value: Seq<char>,
    pub occurred_at: Option<Seq<char>>,
    pub detected_at: Seq<char>,
    pub url: Option<Seq<char>>,
}

impl View for Event {
    type V = EventView;

    open spec fn view(&self) -> EventView {
        EventView {
            event_id: self.event_id@,
            event_type: self.event_type,
            source: self.source,
            subject: self.subject@,
            old_value: opt_text(self.old_value),
            new_value: self.new_value@,
            occurred_at: opt_text(self.occurred_at),
            detected_at: self.detected_at@,
            url: opt_text(self.url),
        }
    }
}

/// The idempotency key of a change: `Type|subject|new_value`.
pub open spec fn event_id_text(t: EventType, subject: Seq<char>, new_value: Seq<char>) -> Seq<char> {
    event_type_text(t) + "|"@ + subject + "|"@ + new_value
}

impl Event {
    /// The deterministic id of a change; equal inputs give equal ids.
    pub fn make_event_id(event_type: &EventType, subject: &str, new_value: &str) -> (r: String)
        ensures
            r@ == event_id_text(*event_type, subject@, new_value@),
    {
        let mut out = String::from_str(event_type.name());
        out.append("|");
        out.append(subject);
        out.append("|");
        out.append(new_value);
        out
    }

    /// A copy with the same content.
    pub fn duplicate(&self) -> (r: Event)
        ensures
            r@ == self@,
    {
        Event {
            event_id: self.event_id.clone(),
            event_type: self.event_type,
            source: self.source,
            subject: self.subject.clone(),
            old_value: copy_opt_text(&self.old_value),
            new_value: self.new_value.clone(),
            occurred_at: copy_opt_text(&self.occurred_at),
            detected_at: self.detected_at.clone(),
            url: copy_opt_text(&self.url),
        }
    }
}

} // verus!
