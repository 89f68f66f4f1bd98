use vstd::prelude::*;
use vstd::string::*;

use super::types::{repo_text, RepoId, Source};
use crate::application::ports::{copy_texts, texts};

verus! {

/// A configured resource that is polled for change.
#[derive(Clone, Debug, PartialEq, Eq)]
pub struct WatchTarget {
    /// Stable id, e.g. `github:owner/repo:release`.
    pub id: String,
    pub enabled: bool,
    pub labels: Vec<String>,
    pub kind: WatchKind,
}

/// What is watched.
#[derive(Clone, Debug, PartialEq, Eq)]
pub enum WatchKind {
    GitHubRelease { repo: RepoId },
    GitHubBranch { repo: RepoId, branch: String },
    NpmLatest { package: String },
    WhatsAppWebVersion {},
}

/// The mathematical content of a [`WatchKind`].
pub enum KindView {
    GitHubRelease { owner: Seq<char>, name: Seq<char> },
    GitHubBranch { owner: Seq<char>, name: Seq<char>, branch: Seq<char> },
    NpmLatest { package: Seq<char> },
    WhatsAppWebVersion,
}

impl View for WatchKind {
    type V = KindView;

    open spec fn view(&self) -> KindView {
        match *self {
            WatchKind::GitHubRelease { repo } => KindView::GitHubRelease { owner: repo@.0, name: repo@.1 },
            WatchKind::GitHubBranch { repo, branch } => KindView::GitHubBranch {
                owner: repo@.0,
                name: repo@.1,
                branch: branch@,
            },
            WatchKind::NpmLatest { package } => KindView::NpmLatest { package: package@ },
            WatchKind::WhatsAppWebVersion {  } => KindView::WhatsAppWebVersion,
        }
    }
}

/// The mathematical content of a [`WatchTarget`].
pub struct TargetView {
    pub id: Seq<char>,
    pub enabled: bool,
    pub labels: Seq<Seq<char>>,
    pub kind: KindView,
}

impl View for WatchTarget {
    type V = TargetView;

    open spec fn view(&self) -> TargetView {
        TargetView { id: self.id@, enabled: self.enabled, labels: texts(self.labels@), kind: self.kind@ }
    }
}

impl WatchTarget {
    /// A copy with the same content.
    pub fn duplicate(&self) -> (r: WatchTarget)
        ensures
            r@ == self@,
    {
        WatchTarget {
            id: self.id.clone(),
            enabled: self.enabled,
            labels: copy_texts(&self.labels),
            kind: self.kind.duplicate(),
        }
    }
}

/// The source a kind of target is observed at.
pub open spec fn kind_source(k: WatchKind) -> Source {
    match k {
        WatchKind::GitHubRelease { .. } => Source::GitHub,
        WatchKind::GitHubBranch { .. } => Source::GitHub,
        WatchKind::NpmLatest { .. } => Source::Npm,
        WatchKind::WhatsAppWebVersion {  } => Source::WhatsAppWeb,
    }
}

/// The stable subject key of a target: `owner/name`, `owner/name#branch`, or the package.
pub open spec fn kind_subject(k: WatchKind) -> Seq<char> {
    match k {
        WatchKind::GitHubRelease { repo } => repo_text(repo@.0, repo@.1),
        WatchKind::GitHubBranch { repo, branch } => repo_text(repo@.0, repo@.1) + "#"@ + branch@,
        WatchKind::NpmLatest { package } => package@,
        WatchKind::WhatsAppWebVersion {  } => "whatsapp-web"@,
    }
}

impl WatchKind {
    /// A copy with the same content.
    pub fn duplicate(&self) -> (r: WatchKind)
        ensures
            r@ == self@,
    {
        match self {
            WatchKind::GitHubRelease { repo } => WatchKind::GitHubRelease { repo: repo.duplicate() },
            WatchKind::GitHubBranch { repo, branch } => WatchKind::GitHubBranch {
                repo: repo.duplicate(),
                branch: branch.clone(),
            },
            WatchKind::NpmLatest { package } => WatchKind::NpmLatest { package: package.clone() },
            WatchKind::WhatsAppWebVersion {  } => WatchKind::WhatsAppWebVersion {  },
        }
    }

    pub fn source(&self) -> (r: Source)
        ensures
            r == kind_source(*self),
    {
        match self {
            WatchKind::GitHubRelease { .. } => Source::GitHub,
            WatchKind::GitHubBranch { .. } => Source::GitHub,
            WatchKind::NpmLatest { .. } => Source::Npm,
            WatchKind::WhatsAppWebVersion {  } => Source::WhatsAppWeb,
        }
    }

    pub fn subject(&self) -> (r: String)
        ensures
            r@ == kind_subject(*self),
    {
        match self {
            WatchKind::GitHubRelease { repo } => repo.as_str(),
            WatchKind::GitHubBranch { repo, branch } => {
                let mut out = repo.as_str();
                out.append("#");
                out.append(branch.as_str());
                out
            },
            WatchKind::NpmLatest { package } => package.clone(),
            WatchKind::WhatsAppWebVersion {  } => String::from_str("whatsapp-web"),
        }
    }
}

} // verus!
