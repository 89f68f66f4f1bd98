use std::cell::Cell;

use repopulse::application::{AppError, Notifier, WatchProvider};
use repopulse::domain::{CooldownScope, Event, EventType, RepoId, RepoIdError, Source, WatchKind, WatchTarget};
use repopulse::infrastructure::{
    format_event_text, github_branch_event, github_release_event, npm_latest_event, CompositeWatchProvider,
    FakeWatchProvider, MultiNotifier,
};
use repopulse::interfaces::{Config, TargetCfg};

#[test]
fn event_id_is_type_subject_value() {
    assert_eq!(
        Event::make_event_id(&EventType::GitHubRelease, "acme/widget", "v2.0.0"),
        "GitHubRelease|acme/widget|v2.0.0"
    );
    assert_eq!(Event::make_event_id(&EventType::NpmLatest, "left-pad", "1.3.0"), "NpmLatest|left-pad|1.3.0");
}

#[test]
fn repo_ids() {
    let r = RepoId::parse("pedroslopez/whatsapp-web.js").unwrap();
    assert_eq!(r.as_str(), "pedroslopez/whatsapp-web.js");
    for bad in ["", "/", "a/", "/b", "a/b/c", "ab", "a//b"] {
        match RepoId::parse(bad) {
            Err(RepoIdError::InvalidFormat(m)) => assert_eq!(m, bad),
            Ok(_) => panic!("accepted {bad}"),
        }
    }
}

#[test]
fn kind_subjects_and_sources() {
    let repo = RepoId::parse("acme/widget").unwrap();
    let rel = WatchKind::GitHubRelease { repo: repo.clone() };
    let br = WatchKind::GitHubBranch { repo, branch: "main".to_string() };
    let npm = WatchKind::NpmLatest { package: "left-pad".to_string() };
    let wa = WatchKind::WhatsAppWebVersion {};
    assert_eq!(rel.subject(), "acme/widget");
    assert_eq!(br.subject(), "acme/widget#main");
    assert_eq!(npm.subject(), "left-pad");
    assert_eq!(wa.subject(), "whatsapp-web");
    assert_eq!(rel.source(), Source::GitHub);
    assert_eq!(br.source(), Source::GitHub);
    assert_eq!(npm.source(), Source::Npm);
    assert_eq!(wa.source(), Source::WhatsAppWeb);
    assert_eq!(Source::WhatsAppWeb.name(), "whatsapp-web");
    assert_eq!(Source::from_name("npm"), Some(Source::Npm));
    assert_eq!(EventType::from_name("GitHubBranch"), Some(EventType::GitHubBranch));
    assert_eq!(EventType::from_name("nope"), None);
    assert_eq!(CooldownScope::ByTargetAndType.scope_key("T1", &EventType::GitHubRelease), "T1|GitHubRelease");
    assert_eq!(CooldownScope::ByTarget.scope_key("T1", &EventType::GitHubRelease), "T1");
}

#[test]
fn config_targets_with_defaults() {
    let cfg = Config {
        poll_interval_seconds: 60,
        cooldown_seconds: None,
        targets: vec![
            TargetCfg::GitHubRelease { repo: "acme/widget".to_string(), id: None, enabled: None, labels: None },
            TargetCfg::GitHubBranch {
                repo: "acme/widget".to_string(),
                branch: "main".to_string(),
                id: Some("custom".to_string()),
                enabled: Some(false),
                labels: Some(vec!["ci".to_string()]),
            },
            TargetCfg::NpmLatest { package: "left-pad".to_string(), id: None, enabled: None, labels: None },
        ],
    };
    let t = cfg.to_watch_targets().unwrap();
    assert_eq!(t.len(), 3);
    assert_eq!(t[0].id, "github:acme/widget:release");
    assert!(t[0].enabled);
    assert!(t[0].labels.is_empty());
    assert_eq!(t[1].id, "custom");
    assert!(!t[1].enabled);
    assert_eq!(t[1].labels, vec!["ci".to_string()]);
    assert_eq!(t[1].kind.subject(), "acme/widget#main");
    assert_eq!(t[2].id, "npm:left-pad:latest");
}

#[test]
fn config_rejects_bad_repo() {
    let cfg = Config {
        poll_interval_seconds: 60,
        cooldown_seconds: Some(30),
        targets: vec![
            TargetCfg::NpmLatest { package: "p".to_string(), id: None, enabled: None, labels: None },
            TargetCfg::GitHubRelease { repo: "no-slash".to_string(), id: None, enabled: None, labels: None },
        ],
    };
    match cfg.to_watch_targets() {
        Err(RepoIdError::InvalidFormat(m)) => assert_eq!(m, "no-slash"),
        Ok(_) => panic!("accepted"),
    }
}

fn sample_event(old: Option<&str>, url: Option<&str>) -> Event {
    Event {
        event_id: "id".to_string(),
        event_type: EventType::GitHubRelease,
        source: Source::GitHub,
        subject: "acme/widget".to_string(),
        old_value: old.map(|s| s.to_string()),
        new_value: "v2".to_string(),
        occurred_at: None,
        detected_at: "now".to_string(),
        url: url.map(|s| s.to_string()),
    }
}

#[test]
fn notification_text() {
    let t = format_event_text(&sample_event(Some("v1"), Some("https://x")));
    assert_eq!(
        t,
        "🔔 RepoPulse 检测到更新\n📢 事件类型: GitHubRelease\n🎯 对象: acme/widget\n变化: v1 -> v2\n检测时间: now\n详情: https://x"
    );
    let t = format_event_text(&sample_event(None, None));
    assert_eq!(t, "🔔 RepoPulse 检测到更新\n📢 事件类型: GitHubRelease\n🎯 对象: acme/widget\n新值: v2\n检测时间: now");
}

struct Channel {
    fail: bool,
    calls: Cell<u32>,
}

impl Notifier for Channel {
    fn notify(&self, _event: &Event) -> Result<(), AppError> {
        self.calls.set(self.calls.get() + 1);
        if self.fail {
            Err(AppError::Notifier("down".to_string()))
        } else {
            Ok(())
        }
    }
}

#[test]
fn fan_out_tries_every_notifier() {
    let multi = MultiNotifier::new(vec![
        Channel { fail: true, calls: Cell::new(0) },
        Channel { fail: false, calls: Cell::new(0) },
        Channel { fail: true, calls: Cell::new(0) },
    ]);
    let failures = multi.deliver(&sample_event(None, None));
    assert_eq!(failures.iter().map(|(i, _)| *i).collect::<Vec<_>>(), vec![0, 2]);
    assert_eq!(multi.notify(&sample_event(None, None)), Ok(()));
}

#[test]
fn composite_routes_and_rejects_unsupported() {
    let composite = CompositeWatchProvider::new(FakeWatchProvider::new(), FakeWatchProvider::new(), FakeWatchProvider::new());
    let wa = WatchTarget { id: "w".to_string(), enabled: true, labels: vec![], kind: WatchKind::WhatsAppWebVersion {} };
    assert_eq!(
        composite.check(&wa),
        Err(AppError::Provider("WhatsAppWebVersion provider not implemented".to_string()))
    );
    let npm = WatchTarget {
        id: "n".to_string(),
        enabled: true,
        labels: vec![],
        kind: WatchKind::NpmLatest { package: "left-pad".to_string() },
    };
    let e = composite.check(&npm).unwrap().unwrap();
    assert_eq!(e.event_id, "NpmLatest|left-pad|v1.0.0");
    assert_eq!(e.source, Source::Npm);
    assert_eq!(e.old_value, Some("v0.9.0".to_string()));
}

#[test]
fn provider_response_mapping() {
    let repo = RepoId::parse("acme/widget").unwrap();
    let e = github_release_event(&repo, "v2.0.0".to_string(), Some("2024-01-01".to_string()), None, "d".to_string());
    assert_eq!(e.event_id, "GitHubRelease|acme/widget|v2.0.0");
    assert_eq!(e.subject, "acme/widget");
    assert_eq!(e.occurred_at, Some("2024-01-01".to_string()));
    assert_eq!(e.old_value, None);
    let kind = WatchKind::GitHubBranch { repo, branch: "main".to_string() };
    let e = github_branch_event(&kind, "abc123".to_string(), Some("https://h".to_string()), "d".to_string());
    assert_eq!(e.event_id, "GitHubBranch|acme/widget#main|abc123");
    assert_eq!(e.url, Some("https://h".to_string()));
    let e = npm_latest_event(&"left-pad".to_string(), "1.3.0".to_string(), "d".to_string());
    assert_eq!(e.event_id, "NpmLatest|left-pad|1.3.0");
    assert_eq!(e.source, Source::Npm);
    assert_eq!(e.url, Some("https://www.npmjs.com/package/left-pad".to_string()));
}
