//! Watch targets, events and the derivations between them.
pub mod event;
pub mod policy;
pub mod types;
pub mod watch_target;

pub use self::event::{Event, EventType, EventView};
pub use self::policy::{CooldownPolicy, CooldownScope};
pub use self::types::{RepoId, RepoIdError, Source};
pub use self::watch_target::{WatchKind, WatchTarget};
