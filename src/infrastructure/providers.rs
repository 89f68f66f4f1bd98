use vstd::prelude::*;
use vstd::string::*;

use crate::application::ports::{AppError, WatchProvider};
use crate::domain::event::{event_id_text, opt_text, Event, EventType, EventView};
use crate::domain::types::{repo_text, RepoId, Source};
use crate::domain::watch_target::{kind_source, kind_subject, WatchKind, WatchTarget};

verus! {

/// The event type a kind of target reports.
pub open spec fn kind_event_type(k: WatchKind) -> EventType {
    match k {
        WatchKind::GitHubRelease { .. } => EventType::GitHubRelease,
        WatchKind::GitHubBranch { .. } => EventType::GitHubBranch,
        WatchKind::NpmLatest { .. } => EventType::NpmLatest,
        WatchKind::WhatsAppWebVersion {  } => EventType::WhatsAppWebVersion,
    }
}

impl WatchKind {
    /// The event type this kind of target reports.
    pub fn event_type(&self) -> (r: EventType)
        ensures
            r == kind_event_type(*self),
    {
        match self {
            WatchKind::GitHubRelease { .. } => EventType::GitHubRelease,
            WatchKind::GitHubBranch { .. } => EventType::GitHubBranch,
            WatchKind::NpmLatest { .. } => EventType::NpmLatest,
            WatchKind::WhatsAppWebVersion {  } => EventType::WhatsAppWebVersion,
        }
    }
}

/// Routes each target to the provider for its kind.
pub struct CompositeWatchProvider<R, B, N> {
    github_release: R,
    github_branch: B,
    npm_latest: N,
}

/// The message for a kind no provider handles.
pub open spec fn unsupported_kind_message() -> Seq<char> {
    "WhatsAppWebVersion provider not implemented"@
}

impl<R: WatchProvider, B: WatchProvider, N: WatchProvider> CompositeWatchProvider<R, B, N> {
    pub fn new(github_release: R, github_branch: B, npm_latest: N) -> (r: Self)
        ensures
            r.release_provider() == github_release,
            r.branch_provider() == github_branch,
            r.npm_provider() == npm_latest,
    {
        CompositeWatchProvider { github_release, github_branch, npm_latest }
    }

    pub closed spec fn release_provider(&self) -> R {
        self.github_release
    }

    pub closed spec fn branch_provider(&self) -> B {
        self.github_branch
    }

    pub closed spec fn npm_provider(&self) -> N {
        self.npm_latest
    }

    /// Asks the provider of the target's kind, once, and returns its answer;
    /// a kind without a provider is a provider error.
    pub fn check_target(&self, target: &WatchTarget) -> (r: Result<Option<Event>, AppError>)
        ensures
            match target.kind {
                WatchKind::GitHubRelease { .. } => call_ensures(R::check, (&self.release_provider(), target), r),
                WatchKind::GitHubBranch { .. } => call_ensures(B::check, (&self.branch_provider(), target), r),
                WatchKind::NpmLatest { .. } => call_ensures(N::check, (&self.npm_provider(), target), r),
                WatchKind::WhatsAppWebVersion {  } => r matches Err(AppError::Provider(m)) && m@ == unsupported_kind_message(),
            },
    {
        match &target.kind {
            WatchKind::GitHubRelease { .. } => self.github_release.check(target),
            WatchKind::GitHubBranch { .. } => self.github_branch.check(target),
            WatchKind::NpmLatest { .. } => self.npm_latest.check(target),
            WatchKind::WhatsAppWebVersion {  } => Err(
                AppError::Provider(String::from_str("WhatsAppWebVersion provider not implemented")),
            ),
        }
    }
}

impl<R: WatchProvider, B: WatchProvider, N: WatchProvider> WatchProvider for CompositeWatchProvider<R, B, N> {
    fn check(&self, target: &WatchTarget) -> Result<Option<Event>, AppError> {
        self.check_target(target)
    }
}

/// The fixed change the fake provider reports for a target.
pub open spec fn fake_event(k: WatchKind) -> EventView {
    EventView {
        event_id: event_id_text(kind_event_type(k), kind_subject(k), "v1.0.0"@),
        event_type: kind_event_type(k),
        source: kind_source(k),
        subject: kind_subject(k),
        old_value: Some("v0.9.0"@),
        new_value: "v1.0.0"@,
        occurred_at: None,
        detected_at: "2026-02-04T00:00:00+08:00"@,
        url: Some("https://example.com"@),
    }
}

/// Reports the same change for a target on every check.
pub struct FakeWatchProvider;

impl FakeWatchProvider {
    pub fn new() -> Self {
        FakeWatchProvider
    }

    /// The fixed change for `target`: `v0.9.0` to `v1.0.0` of its subject.
    pub fn check_target(&self, target: &WatchTarget) -> (r: Event)
        ensures
            r@ == fake_event(target.kind),
    {
        let event_type = target.kind.event_type();
        let subject = target.kind.subject();
        let new_value = String::from_str("v1.0.0");
        let event_id = Event::make_event_id(&event_type, subject.as_str(), new_value.as_str());
        Event {
            event_id,
            event_type,
            source: target.kind.source(),
            subject,
            old_value: Some(String::from_str("v0.9.0")),
            new_value,
            occurred_at: None,
            detected_at: String::from_str("2026-02-04T00:00:00+08:00"),
            url: Some(String::from_str("https://example.com")),
        }
    }
}

impl WatchProvider for FakeWatchProvider {
    fn check(&self, target: &WatchTarget) -> Result<Option<Event>, AppError> {
        Ok(Some(self.check_target(target)))
    }
}

/// The change a provider reports: `subject` of type `t` from `source` now
/// at `new_value`, with no previous value recorded.
pub open spec fn detected_event(
    t: EventType,
    source: Source,
    subject: Seq<char>,
    new_value: Seq<char>,
    occurred_at: Option<Seq<char>>,
    detected_at: Seq<char>,
    url: Option<Seq<char>>,
) -> EventView {
    EventView {
        event_id: event_id_text(t, subject, new_value),
        event_type: t,
        source,
        subject,
        old_value: None,
        new_value,
        occurred_at,
        detected_at,
        url,
    }
}

/// The event for the latest release `tag` of `repo`.
pub fn github_release_event(
    repo: &RepoId,
    tag: String,
    published_at: Option<String>,
    html_url: Option<String>,
    detected_at: String,
) -> (r: Event)
    ensures
        r@ == detected_event(
            EventType::GitHubRelease,
            Source::GitHub,
            repo_text(repo@.0, repo@.1),
            tag@,
            opt_text(published_at),
            detected_at@,
            opt_text(html_url),
        ),
{
    let subject = repo.as_str();
    let event_id = Event::make_event_id(&EventType::GitHubRelease, subject.as_str(), tag.as_str());
    Event {
        event_id,
        event_type: EventType::GitHubRelease,
        source: Source::GitHub,
        subject,
        old_value: None,
        new_value: tag,
        occurred_at: published_at,
        detected_at,
        url: html_url,
    }
}

/// The event for the head commit `sha` of a watched branch (`kind` must be
/// a branch target).
pub fn github_branch_event(kind: &WatchKind, sha: String, html_url: Option<String>, detected_at: String) -> (r: Event)
    ensures
        r@ == detected_event(
            EventType::GitHubBranch,
            Source::GitHub,
            kind_subject(*kind),
            sha@,
            None,
            detected_at@,
            opt_text(html_url),
        ),
{
    let subject = kind.subject();
    let event_id = Event::make_event_id(&EventType::GitHubBranch, subject.as_str(), sha.as_str());
    Event {
        event_id,
        event_type: EventType::GitHubBranch,
        source: Source::GitHub,
        subject,
        old_value: None,
        new_value: sha,
        occurred_at: None,
        detected_at,
        url: html_url,
    }
}

/// The page of an npm package.
pub open spec fn npm_page(package: Seq<char>) -> Seq<char> {
    "https://www.npmjs.com/package/"@ + package
}

/// The event for the `latest` dist-tag of an npm package.
pub fn npm_latest_event(package: &String, latest: String, detected_at: String) -> (r: Event)
    ensures
        r@ == detected_event(
            EventType::NpmLatest,
            Source::Npm,
            package@,
            latest@,
            None,
            detected_at@,
            Some(npm_page(package@)),
        ),
{
    let event_id = Event::make_event_id(&EventType::NpmLatest, package.as_str(), latest.as_str());
    let mut url = String::from_str("https://www.npmjs.com/package/");
    url.append(package.as_str());
    Event {
        event_id,
        event_type: EventType::NpmLatest,
        source: Source::Npm,
        subject: package.clone(),
        old_value: None,
        new_value: latest,
        occurred_at: None,
        detected_at,
        url: Some(url),
    }
}

} // verus!
