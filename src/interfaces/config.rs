use vstd::prelude::*;
use vstd::string::*;

use crate::application::ports::{copy_texts, texts};
use crate::domain::types::{is_repo_text, repo_parts_ok, repo_text, RepoId, RepoIdError};
use crate::domain::watch_target::{KindView, TargetView, WatchKind, WatchTarget};
use crate::infrastructure::memory_store::target_views;

verus! {

/// The loaded configuration.
#[derive(Debug)]
pub struct Config {
    pub poll_interval_seconds: u64,
    pub cooldown_seconds: Option<u64>,
    pub targets: Vec<TargetCfg>,
}

/// One configured target, before validation.
#[derive(Debug)]
pub enum TargetCfg {
    GitHubRelease { repo: String, id: Option<String>, enabled: Option<bool>, labels: Option<Vec<String>> },
    GitHubBranch {
        repo: String,
        branch: String,
        id: Option<String>,
        enabled: Option<bool>,
        labels: Option<Vec<String>>,
    },
    NpmLatest { package: String, id: Option<String>, enabled: Option<bool>, labels: Option<Vec<String>> },
}

/// The repository text of an entry, if it names one.
pub open spec fn cfg_repo(c: TargetCfg) -> Option<Seq<char>> {
    match c {
        TargetCfg::GitHubRelease { repo, .. } => Some(repo@),
        TargetCfg::GitHubBranch { repo, .. } => Some(repo@),
        TargetCfg::NpmLatest { .. } => None,
    }
}

/// An entry is valid when the repository it names (if any) is `owner/name`.
pub open spec fn cfg_valid(c: TargetCfg) -> bool {
    cfg_repo(c) matches Some(r) ==> is_repo_text(r)
}

/// The id an entry gets when it sets none.
pub open spec fn default_target_id(c: TargetCfg) -> Seq<char> {
    match c {
        TargetCfg::GitHubRelease { repo, .. } => "github:"@ + repo@ + ":release"@,
        TargetCfg::GitHubBranch { repo, .. } => "github:"@ + repo@ + ":branch"@,
        TargetCfg::NpmLatest { package, .. } => "npm:"@ + package@ + ":latest"@,
    }
}

pub open spec fn cfg_fields(c: TargetCfg) -> (Option<String>, Option<bool>, Option<Vec<String>>) {
    match c {
        TargetCfg::GitHubRelease { id, enabled, labels, .. } => (id, enabled, labels),
        TargetCfg::GitHubBranch { id, enabled, labels, .. } => (id, enabled, labels),
        TargetCfg::NpmLatest { id, enabled, labels, .. } => (id, enabled, labels),
    }
}

/// `t` is the target a valid entry `c` describes: its id (or the default),
/// enabled unless it says otherwise, its labels (or none), and its kind.
pub open spec fn target_from_cfg(c: TargetCfg, t: TargetView) -> bool {
    let (id, enabled, labels) = cfg_fields(c);
    &&& t.id == (match id { Some(i) => i@, None => default_target_id(c) })
    &&& t.enabled == (match enabled { Some(e) => e, None => true })
    &&& t.labels == (match labels { Some(l) => texts(l@), None => Seq::empty() })
    &&& match (c, t.kind) {
        (TargetCfg::GitHubRelease { repo, .. }, KindView::GitHubRelease { owner, name }) =>
            repo_parts_ok(owner, name) && repo@ == repo_text(owner, name),
        (TargetCfg::GitHubBranch { repo, branch, .. }, KindView::GitHubBranch { owner, name, branch: b }) =>
            repo_parts_ok(owner, name) && repo@ == repo_text(owner, name) && b == branch@,
        (TargetCfg::NpmLatest { package, .. }, KindView::NpmLatest { package: p }) => p == package@,
        _ => false,
    }
}

fn copy_labels(labels: &Option<Vec<String>>) -> (r: Vec<String>)
    ensures
        texts(r@) == (match labels { Some(l) => texts(l@), None => Seq::empty() }),
{
    match labels {
        Some(l) => copy_texts(l),
        None => {
            let v: Vec<String> = Vec::new();
            assert(texts(v@) =~= Seq::empty());
            v
        },
    }
}

fn id_or(id: &Option<String>, prefix: &str, key: &String, suffix: &str) -> (r: String)
    ensures
        r@ == (match id { Some(i) => i@, None => prefix@ + key@ + suffix@ }),
{
    match id {
        Some(i) => i.clone(),
        None => {
            let mut out = String::from_str(prefix);
            out.append(key.as_str());
            out.append(suffix);
            out
        },
    }
}

impl TargetCfg {
    /// The target this entry describes, or the error for its repository.
    pub fn to_watch_target(&self) -> (r: Result<WatchTarget, RepoIdError>)
        ensures
            r is Ok <==> cfg_valid(*self),
            r matches Ok(t) ==> target_from_cfg(*self, t@),
            r matches Err(RepoIdError::InvalidFormat(m)) ==> cfg_repo(*self) == Some(m@),
    {
        match self {
            TargetCfg::GitHubRelease { repo, id, enabled, labels } => {
                let repo_id = match RepoId::parse(repo.as_str()) {
                    Ok(r) => r,
                    Err(e) => return Err(e),
                };
                Ok(WatchTarget {
                    id: id_or(id, "github:", repo, ":release"),
                    enabled: match enabled { Some(e) => *e, None => true },
                    labels: copy_labels(labels),
                    kind: WatchKind::GitHubRelease { repo: repo_id },
                })
            },
            TargetCfg::GitHubBranch { repo, branch, id, enabled, labels } => {
                let repo_id = match RepoId::parse(repo.as_str()) {
                    Ok(r) => r,
                    Err(e) => return Err(e),
                };
                Ok(WatchTarget {
                    id: id_or(id, "github:", repo, ":branch"),
                    enabled: match enabled { Some(e) => *e, None => true },
                    labels: copy_labels(labels),
                    kind: WatchKind::GitHubBranch { repo: repo_id, branch: branch.clone() },
                })
            },
            TargetCfg::NpmLatest { package, id, enabled, labels } => {
                Ok(WatchTarget {
                    id: id_or(id, "npm:", package, ":latest"),
                    enabled: match enabled { Some(e) => *e, None => true },
                    labels: copy_labels(labels),
                    kind: WatchKind::NpmLatest { package: package.clone() },
                })
            },
        }
    }
}

impl Config {
    /// The targets of the configuration, in order; the first invalid
    /// repository fails the whole list.
    pub fn to_watch_targets(&self) -> (r: Result<Vec<WatchTarget>, RepoIdError>)
        ensures
            r is Ok <==> forall|i: int| 0 <= i < self.targets@.len() ==> cfg_valid(#[trigger] self.targets@[i]),
            r matches Ok(v) ==> v@.len() == self.targets@.len() && forall|i: int|
                0 <= i < v@.len() ==> target_from_cfg(self.targets@[i], #[trigger] target_views(v@)[i]),
            r matches Err(RepoIdError::InvalidFormat(m)) ==> exists|i: int|
                0 <= i < self.targets@.len() && !cfg_valid(#[trigger] self.targets@[i])
                    && cfg_repo(self.targets@[i]) == Some(m@)
                    && forall|j: int| 0 <= j < i ==> cfg_valid(#[trigger] self.targets@[j]),
    {
        let mut out: Vec<WatchTarget> = Vec::new();
        let mut i: usize = 0;
        while i < self.targets.len()
            invariant
                i <= self.targets@.len(),
                out@.len() == i,
                forall|j: int| 0 <= j < i ==> cfg_valid(#[trigger] self.targets@[j]),
                forall|j: int| 0 <= j < i ==> target_from_cfg(self.targets@[j], #[trigger] target_views(out@)[j]),
            decreases self.targets@.len() - i,
        {
            match self.targets[i].to_watch_target() {
                Ok(t) => {
                    let ghost before = out@;
                    out.push(t);
                    assert forall|j: int| 0 <= j < i + 1 implies target_from_cfg(self.targets@[j], #[trigger] target_views(out@)[j]) by {
                        if j < i {
                            assert(target_views(out@)[j] == target_views(before)[j]);
                        }
                    }
                },
                Err(e) => {
                    return Err(e);
                },
            }
            i = i + 1;
        }
        Ok(out)
    }
}

} // verus!
